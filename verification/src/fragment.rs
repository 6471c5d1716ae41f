//! Splitting a text over several frames, and putting it together again.

use vstd::prelude::*;
use vstd::slice::slice_subrange;
use vstd::utf8::{
    decode_utf8, decode_utf8_split, encode_utf8, encode_utf8_decode_utf8, encode_utf8_valid_utf8,
    is_ascii_chars, is_ascii_chars_encode_utf8, is_ascii_chars_nat_bound, is_char_boundary,
    is_char_boundary_iff_not_is_continuation_byte, is_char_boundary_start_end_of_seq, valid_utf8,
    valid_utf8_split,
};
use crate::checksum::{
    frame_checksum, has_shaped_checksum, verifies, with_checksum, with_content,
};
use crate::frame::{Frame, FrameView};
use crate::json::{json_member_text, json_object_of, json_string_of, member_text, text_object};
use crate::text::{copy_texts, lossy_text, opt_text, texts, utf8_lossy};

verus! {

/// The flag of a fragment that is not the last of its message.
pub open spec fn more_flag() -> Seq<char> {
    "MORE"@
}

/// Whether the flags hold `MORE`.
pub open spec fn has_more(flags: Seq<Seq<char>>) -> bool {
    exists|i: int| 0 <= i < flags.len() && flags[i] == more_flag()
}

/// The flags without any `MORE`, the others in their order.
pub open spec fn without_more(flags: Seq<Seq<char>>) -> Seq<Seq<char>>
    decreases flags.len(),
{
    if flags.len() == 0 {
        Seq::empty()
    } else if flags.last() == more_flag() {
        without_more(flags.drop_last())
    } else {
        without_more(flags.drop_last()).push(flags.last())
    }
}

/// The flags with `MORE` added at the end unless it is there already.
pub open spec fn with_more(flags: Seq<Seq<char>>) -> Seq<Seq<char>> {
    if has_more(flags) {
        flags
    } else {
        flags.push(more_flag())
    }
}

/// What is left of the flags without `MORE` does not hold it.
pub proof fn lemma_without_more(flags: Seq<Seq<char>>)
    ensures
        !has_more(without_more(flags)),
    decreases flags.len(),
{
    if flags.len() > 0 {
        lemma_without_more(flags.drop_last());
    }
}

/// The views of a sequence of frames.
pub open spec fn frame_views(frames: Seq<Frame>) -> Seq<FrameView> {
    Seq::new(frames.len(), |i: int| frames[i]@)
}

/// Whether the flags of a frame hold `MORE`.
pub fn carries_more(flags: &Vec<String>) -> (r: bool)
    ensures
        r == has_more(texts(flags@)),
{
    let more = String::from_str("MORE");
    let mut i: usize = 0;
    while i < flags.len()
        invariant
            i <= flags.len(),
            more@ == more_flag(),
            forall|j: int| 0 <= j < i ==> texts(flags@)[j] != more_flag(),
        decreases flags.len() - i,
    {
        if flags[i] == more {
            assert(texts(flags@)[i as int] == more_flag());
            return true;
        }
        i += 1;
    }
    false
}

fn strip_more(flags: &Vec<String>) -> (r: Vec<String>)
    ensures
        texts(r@) == without_more(texts(flags@)),
{
    let more = String::from_str("MORE");
    let ghost all = texts(flags@);
    let mut out: Vec<String> = Vec::new();
    let mut i: usize = 0;
    while i < flags.len()
        invariant
            i <= flags.len(),
            more@ == more_flag(),
            all == texts(flags@),
            texts(out@) == without_more(all.take(i as int)),
        decreases flags.len() - i,
    {
        proof {
            assert(all.take(i + 1).drop_last() =~= all.take(i as int));
            assert(all.take(i + 1).last() == flags@[i as int]@);
        }
        if !(flags[i] == more) {
            let ghost before = texts(out@);
            out.push(flags[i].clone());
            assert(texts(out@) =~= before.push(flags@[i as int]@));
        }
        i += 1;
    }
    proof {
        assert(all.take(i as int) =~= all);
    }
    out
}

fn ensure_more(flags: &Vec<String>) -> (r: Vec<String>)
    ensures
        texts(r@) == with_more(texts(flags@)),
{
    let mut out = copy_texts(flags);
    if !carries_more(flags) {
        let ghost before = texts(out@);
        out.push(String::from_str("MORE"));
        assert(texts(out@) =~= before.push(more_flag()));
    }
    out
}

/// How many frames a text of `len` bytes takes with at most `max` bytes each.
pub open spec fn chunks_needed(len: int, max: int) -> int {
    if len <= max {
        1
    } else {
        (len + max - 1) / max
    }
}

/// The bytes of the chunk with the given index.
pub open spec fn chunk_bytes(bytes: Seq<u8>, max: int, index: int) -> Seq<u8> {
    bytes.subrange(
        index * max,
        if (index + 1) * max <= bytes.len() {
            (index + 1) * max
        } else {
            bytes.len() as int
        },
    )
}

/// The characters of the chunk with the given index of a text in which every
/// character takes one byte.
pub open spec fn chunk_chars(text: Seq<char>, max: int, index: int) -> Seq<char> {
    text.subrange(
        index * max,
        if (index + 1) * max <= text.len() {
            (index + 1) * max
        } else {
            text.len() as int
        },
    )
}

/// The content of a fragment that carries `text`.
pub open spec fn text_content(text: Seq<char>) -> serde_json::Value {
    json_object_of("text"@, json_string_of(text))
}

/// The fragment made of `base` with the given index and content; it carries
/// `MORE` exactly if it is not the last, and its own checksum.
pub open spec fn fragment_of(
    base: FrameView,
    index: int,
    last: bool,
    content: serde_json::Value,
) -> FrameView {
    let body = with_content(
        FrameView {
            frag_seq: index as u32,
            flags: if last {
                without_more(base.flags)
            } else {
                with_more(base.flags)
            },
            ..base
        },
        content,
    );
    with_checksum(body, frame_checksum(body))
}

/// Whether the bytes can be cut into chunks of `max` bytes without cutting
/// through a character.
pub open spec fn cuts_between_chars(bytes: Seq<u8>, max: int) -> bool {
    forall|k: int| 0 < k && #[trigger] (k * max) < bytes.len() ==> is_char_boundary(bytes, k * max)
}

/// The text that a frame carries: the string member `text` of its content, or
/// nothing where the content has none.
pub open spec fn frame_text(f: FrameView) -> Seq<char> {
    match json_member_text(f.payload.content, "text"@) {
        Some(t) => t,
        None => Seq::empty(),
    }
}

/// The texts of the frames, one after the other.
pub open spec fn joined_text(frames: Seq<FrameView>) -> Seq<char>
    decreases frames.len(),
{
    if frames.len() == 0 {
        Seq::empty()
    } else {
        joined_text(frames.drop_last()) + frame_text(frames.last())
    }
}

/// A sequence of fragments is in order when there is at least one, each
/// stands at its index, and all but the last carry `MORE`.
pub open spec fn in_order(frames: Seq<FrameView>) -> bool {
    &&& frames.len() > 0
    &&& forall|i: int|
        0 <= i < frames.len() ==> {
            &&& (#[trigger] frames[i]).frag_seq == i
            &&& has_more(frames[i].flags) == (i < frames.len() - 1)
        }
}

/// The text of a sequence of fragments: that of its frames, if they are in
/// order.
pub open spec fn reassembly(frames: Seq<FrameView>) -> Option<Seq<char>> {
    if in_order(frames) {
        Some(joined_text(frames))
    } else {
        None
    }
}

proof fn lemma_chunk_decodes(bytes: Seq<u8>, s: int, e: int)
    requires
        valid_utf8(bytes),
        0 <= s < e <= bytes.len(),
        is_char_boundary(bytes, s),
        is_char_boundary(bytes, e),
    ensures
        valid_utf8(bytes.subrange(s, e)),
        valid_utf8(bytes.subrange(0, e)),
        decode_utf8(bytes.subrange(0, e)) == decode_utf8(bytes.subrange(0, s)) + decode_utf8(
            bytes.subrange(s, e),
        ),
{
    let head = bytes.subrange(0, e);
    valid_utf8_split(bytes, e);
    assert(valid_utf8(head));
    assert(head[s] == bytes[s]);
    if s == 0 {
        is_char_boundary_start_end_of_seq(head);
    } else {
        is_char_boundary_iff_not_is_continuation_byte(bytes, s);
        is_char_boundary_iff_not_is_continuation_byte(head, s);
    }
    assert(is_char_boundary(head, s));
    valid_utf8_split(head, s);
    decode_utf8_split(head, s);
    assert(head.subrange(0, s) =~= bytes.subrange(0, s));
    assert(head.subrange(s, head.len() as int) =~= bytes.subrange(s, e));
}

/// What is known of the fragment with index `j` of a text with the bytes
/// `all` and the characters `chars`.
#[verifier::opaque]
spec fn piece_ok(
    f: FrameView,
    base: FrameView,
    all: Seq<u8>,
    chars: Seq<char>,
    max: int,
    j: int,
    last: bool,
) -> bool {
    let chunk = chunk_bytes(all, max, j);
    &&& f == fragment_of(base, j, last, text_content(utf8_lossy(chunk)))
    &&& verifies(f)
    &&& has_shaped_checksum(f)
    &&& frame_text(f) == utf8_lossy(chunk)
    &&& valid_utf8(chunk) ==> utf8_lossy(chunk) == decode_utf8(chunk)
    &&& is_ascii_chars(chars) ==> utf8_lossy(chunk) == chunk_chars(chars, max, j)
    &&& f.frag_seq == j
    &&& has_more(f.flags) == !last
}

/// In a text of ASCII characters a stretch of the bytes is the stretch of the
/// characters.
proof fn lemma_ascii_chunk(chars: Seq<char>, s: int, e: int)
    requires
        is_ascii_chars(chars),
        0 <= s <= e <= chars.len(),
    ensures
        encode_utf8(chars).len() == chars.len(),
        valid_utf8(encode_utf8(chars).subrange(s, e)),
        decode_utf8(encode_utf8(chars).subrange(s, e)) == chars.subrange(s, e),
{
    let piece = chars.subrange(s, e);
    is_ascii_chars_encode_utf8(chars);
    assert(is_ascii_chars(piece)) by {
        assert forall|i: int| 0 <= i < piece.len() implies '\0' <= #[trigger] piece[i]
            <= '\u{7f}' by {
            assert(piece[i] == chars[s + i]);
        }
    }
    is_ascii_chars_encode_utf8(piece);
    assert(encode_utf8(chars).subrange(s, e) =~= encode_utf8(piece)) by {
        assert forall|i: int| 0 <= i < piece.len() implies encode_utf8(chars).subrange(s, e)[i]
            == encode_utf8(piece)[i] by {
            assert(encode_utf8(chars)[s + i] == chars[s + i] as u8);
            assert(encode_utf8(piece)[i] == piece[i] as u8);
        }
    }
    encode_utf8_valid_utf8(piece);
    encode_utf8_decode_utf8(piece);
}

/// A text of ASCII characters is cut between characters wherever it is cut.
pub proof fn lemma_ascii_cuts_between_chars(chars: Seq<char>, max: int)
    requires
        is_ascii_chars(chars),
        0 <= max,
    ensures
        cuts_between_chars(encode_utf8(chars), max),
{
    let bytes = encode_utf8(chars);
    is_ascii_chars_encode_utf8(chars);
    is_ascii_chars_nat_bound(chars);
    encode_utf8_valid_utf8(chars);
    assert forall|k: int| 0 < k && #[trigger] (k * max) < bytes.len() implies is_char_boundary(
        bytes,
        k * max,
    ) by {
        let at = k * max;
        assert(0 <= at) by (nonlinear_arith)
            requires
                at == k * max,
                0 < k,
                0 <= max,
        ;
        assert(bytes[at] == chars[at] as u8);
        assert((chars[at] as nat) < 128);
        is_char_boundary_iff_not_is_continuation_byte(bytes, at);
    }
}

proof fn lemma_chunk_index(len: int, max: int, i: int)
    requires
        0 < max < len,
        0 <= i,
        i * max < len,
    ensures
        i < (len + max - 1) / max,
        len <= (i + 1) * max ==> (len + max - 1) / max == i + 1,
        (i + 1) * max == i * max + max,
{
    assert((i + 1) * max == i * max + max) by (nonlinear_arith);
    assert(i < (len + max - 1) / max) by (nonlinear_arith)
        requires
            0 < max,
            0 <= i,
            i * max < len,
    ;
    if len <= (i + 1) * max {
        assert((len + max - 1) / max == i + 1) by (nonlinear_arith)
            requires
                0 < max,
                0 <= i,
                i * max < len,
                len <= (i + 1) * max,
        ;
    }
}

fn make_fragment(base: &Frame, index: u32, last: bool, chunk: &[u8]) -> (f: Frame)
    ensures
        f@ == fragment_of(base@, index as int, last, text_content(utf8_lossy(chunk@))),
        verifies(f@),
        has_shaped_checksum(f@),
        f@.frag_seq == index,
        has_more(f@.flags) == !last,
        frame_text(f@) == utf8_lossy(chunk@),
        valid_utf8(chunk@) ==> utf8_lossy(chunk@) == decode_utf8(chunk@),
{
    let piece = lossy_text(chunk);
    let mut f = base.clone();
    f.frag_seq = index;
    f.payload.content = text_object("text", piece.as_str());
    if last {
        f.flags = strip_more(&f.flags);
    } else {
        f.flags = ensure_more(&f.flags);
    }
    let f = f.with_computed_checksum();
    proof {
        lemma_without_more(base@.flags);
        if !last && !has_more(base@.flags) {
            let fl = base@.flags.push(more_flag());
            assert(fl[fl.len() - 1] == more_flag());
        }
    }
    f
}

/// The chunk with index `i` starts at `i * max` and ends at `end`.
proof fn lemma_chunk_bounds(all: Seq<u8>, max: int, i: int, start: int, end: int)
    requires
        0 < max < all.len(),
        0 <= i,
        start == i * max,
        start < all.len(),
        end == if all.len() - start <= max {
            all.len() as int
        } else {
            start + max
        },
    ensures
        chunk_bytes(all, max, i) == all.subrange(start, end),
        start < end <= all.len(),
        end < all.len() ==> end == (i + 1) * max,
        (i + 1) * max == start + max,
        i < chunks_needed(all.len() as int, max),
        (end == all.len()) == (i == chunks_needed(all.len() as int, max) - 1),
{
    lemma_chunk_index(all.len() as int, max, i);
    if end < all.len() {
        lemma_chunk_index(all.len() as int, max, i + 1);
    }
}

/// With cuts between characters only, the chunk from `start` to `end`
/// decodes to the next piece of the text.
proof fn lemma_chunk_step(all: Seq<u8>, max: int, i: int, start: int, end: int)
    requires
        valid_utf8(all),
        cuts_between_chars(all, max),
        0 < max,
        0 <= i,
        start == i * max,
        start < end <= all.len(),
        end < all.len() ==> end == (i + 1) * max,
        is_char_boundary(all, start),
    ensures
        is_char_boundary(all, end),
        valid_utf8(all.subrange(start, end)),
        valid_utf8(all.subrange(0, end)),
        decode_utf8(all.subrange(0, end)) == decode_utf8(all.subrange(0, start)) + decode_utf8(
            all.subrange(start, end),
        ),
{
    if end < all.len() {
        assert(0 < i + 1 && (i + 1) * max < all.len());
    } else {
        is_char_boundary_start_end_of_seq(all);
    }
    lemma_chunk_decodes(all, start, end);
}

/// Splits `text` over frames made of `base`, at most `max_fragment_bytes`
/// bytes of it in each.
///
/// There is one frame for each chunk of the bytes of the text, and one frame
/// for a text that fits in one chunk, the empty text too. A frame carries
/// its chunk, decoded with U+FFFD for what is cut through, as the member
/// `text` of its content, stands at its index, carries `MORE` exactly if it
/// is not the last, and has its own checksum; all else is as in `base`. The
/// frames are in order. Reassembling them gives the text back if it fits in
/// one chunk or is cut between characters only, as every text of ASCII
/// characters is; a character that is cut through comes back as U+FFFD.
///
/// The fragment index has 32 bits, so the text must not take more frames
/// than that can count; and a text that is not empty cannot be cut into
/// chunks of no bytes.
pub fn fragment_text_frame(base: Frame, text: &str, max_fragment_bytes: usize) -> (r: Vec<Frame>)
    requires
        max_fragment_bytes > 0 || text@.len() == 0,
        chunks_needed(encode_utf8(text@).len() as int, max_fragment_bytes as int) <= 0x1_0000_0000,
    ensures
        r@.len() == chunks_needed(encode_utf8(text@).len() as int, max_fragment_bytes as int),
        forall|i: int|
            0 <= i < r@.len() ==> (#[trigger] r@[i])@ == fragment_of(
                base@,
                i,
                i == r@.len() - 1,
                text_content(
                    utf8_lossy(chunk_bytes(encode_utf8(text@), max_fragment_bytes as int, i)),
                ),
            ),
        forall|i: int|
            0 <= i < r@.len() ==> frame_text((#[trigger] r@[i])@) == utf8_lossy(
                chunk_bytes(encode_utf8(text@), max_fragment_bytes as int, i),
            ),
        forall|i: int|
            0 <= i < r@.len() && valid_utf8(
                chunk_bytes(encode_utf8(text@), max_fragment_bytes as int, i),
            ) ==> frame_text((#[trigger] r@[i])@) == decode_utf8(
                chunk_bytes(encode_utf8(text@), max_fragment_bytes as int, i),
            ) && r@[i]@.payload.content == text_content(
                decode_utf8(chunk_bytes(encode_utf8(text@), max_fragment_bytes as int, i)),
            ),
        is_ascii_chars(text@) ==> forall|i: int|
            0 <= i < r@.len() ==> frame_text((#[trigger] r@[i])@) == chunk_chars(
                text@,
                max_fragment_bytes as int,
                i,
            ) && r@[i]@.payload.content == text_content(
                chunk_chars(text@, max_fragment_bytes as int, i),
            ),
        encode_utf8(text@).len() <= max_fragment_bytes ==> r@[0]@ == fragment_of(
            base@,
            0,
            true,
            text_content(text@),
        ),
        forall|i: int|
            0 <= i < r@.len() ==> verifies((#[trigger] r@[i])@) && has_shaped_checksum(r@[i]@),
        in_order(frame_views(r@)),
        encode_utf8(text@).len() <= max_fragment_bytes || cuts_between_chars(
            encode_utf8(text@),
            max_fragment_bytes as int,
        ) || is_ascii_chars(text@) ==> reassembly(frame_views(r@)) == Some(text@),
{
    let bytes = text.as_bytes();
    let len = bytes.len();
    let max = max_fragment_bytes;
    proof {
        if text@.len() == 0 {
            assert(encode_utf8(text@).len() == 0);
        }
    }
    let ghost all = bytes@;
    proof {
        encode_utf8_valid_utf8(text@);
        encode_utf8_decode_utf8(text@);
        if is_ascii_chars(text@) {
            lemma_ascii_cuts_between_chars(text@, max as int);
        }
    }
    if len <= max {
        let f = make_fragment(&base, 0, true, bytes);
        let mut out: Vec<Frame> = Vec::new();
        out.push(f);
        proof {
            assert(0 * max == 0) by (nonlinear_arith);
            assert(1 * max == max) by (nonlinear_arith);
            assert(chunk_bytes(all, max as int, 0) =~= all);
            if is_ascii_chars(text@) {
                is_ascii_chars_encode_utf8(text@);
                assert(chunk_chars(text@, max as int, 0) =~= text@);
            }
            let views = frame_views(out@);
            assert(views[0] == f@);
            assert(views.len() == 1);
            assert(views.last() == f@);
            assert(views.drop_last() =~= Seq::<FrameView>::empty());
            assert(joined_text(views.drop_last()) =~= Seq::<char>::empty());
            assert(joined_text(views) == joined_text(views.drop_last()) + frame_text(views.last()));
            assert(joined_text(views) =~= frame_text(f@));
            assert(in_order(views));
        }
        return out;
    }
    let ghost chars = text@;
    let ghost n = chunks_needed(all.len() as int, max as int);
    let ghost clean = cuts_between_chars(all, max as int);
    proof {
        is_char_boundary_start_end_of_seq(all);
        assert(all.subrange(0, 0) =~= Seq::<u8>::empty());
        assert(decode_utf8(Seq::<u8>::empty()) =~= Seq::<char>::empty());
    }
    let mut out: Vec<Frame> = Vec::new();
    let mut start: usize = 0;
    let mut i: usize = 0;
    while start < len
        invariant
            0 < max < len,
            len == all.len(),
            all == bytes@,
            all == encode_utf8(chars),
            valid_utf8(all),
            n == chunks_needed(all.len() as int, max as int),
            n <= 0x1_0000_0000,
            clean == cuts_between_chars(all, max as int),
            start < len ==> start == i * max,
            start <= len,
            start == len ==> i == n,
            out@.len() == i,
            forall|j: int|
                0 <= j < i ==> piece_ok(
                    (#[trigger] out@[j])@,
                    base@,
                    all,
                    chars,
                    max as int,
                    j,
                    j == n - 1,
                ),
            clean ==> is_char_boundary(all, start as int),
            clean ==> valid_utf8(all.subrange(0, start as int)),
            clean ==> joined_text(frame_views(out@)) == decode_utf8(
                all.subrange(0, start as int),
            ),
        decreases len - start,
    {
        let end: usize = if len - start <= max {
            len
        } else {
            start + max
        };
        proof {
            lemma_chunk_bounds(all, max as int, i as int, start as int, end as int);
            if is_ascii_chars(chars) {
                is_ascii_chars_encode_utf8(chars);
                lemma_ascii_chunk(chars, start as int, end as int);
                assert(chunk_chars(chars, max as int, i as int) == chars.subrange(
                    start as int,
                    end as int,
                ));
            }
            if clean {
                lemma_chunk_step(all, max as int, i as int, start as int, end as int);
            }
        }
        let last = end == len;
        let chunk = slice_subrange(bytes, start, end);
        let f = make_fragment(&base, i as u32, last, chunk);
        assert(piece_ok(f@, base@, all, chars, max as int, i as int, i == n - 1)) by {
            reveal(piece_ok);
        }
        let ghost before = frame_views(out@);
        out.push(f);
        proof {
            assert(frame_views(out@) =~= before.push(f@));
            assert(frame_views(out@).drop_last() =~= before);
        }
        assert(out.len() == i + 1);
        start = end;
        i += 1;
    }
    proof {
        reveal(piece_ok);
        assert(all.subrange(0, len as int) =~= all);
        lemma_chunk_index(len as int, max as int, 0);
        let views = frame_views(out@);
        assert forall|j: int| 0 <= j < views.len() implies (#[trigger] views[j]).frag_seq == j
            && has_more(views[j].flags) == (j < views.len() - 1) by {
            assert(views[j] == out@[j]@);
        }
        assert(in_order(views));
    }
    out
}

/// The text that a sequence of fragments carries, if the fragments are in
/// order: at least one, each at its index, all but the last with `MORE`.
pub fn reassemble_text(frames: &[Frame]) -> (r: Option<String>)
    ensures
        opt_text(r) == reassembly(frame_views(frames@)),
{
    let ghost views = frame_views(frames@);
    let n = frames.len();
    if n == 0 {
        return None;
    }
    let mut idx: usize = 0;
    while idx < n
        invariant
            idx <= n,
            n == frames@.len(),
            views == frame_views(frames@),
            forall|j: int|
                0 <= j < idx ==> (#[trigger] views[j]).frag_seq == j && has_more(views[j].flags)
                    == (j < n - 1),
        decreases n - idx,
    {
        let f = &frames[idx];
        assert(views[idx as int] == f@);
        if f.frag_seq as usize != idx {
            return None;
        }
        let more = carries_more(&f.flags);
        if more != (idx < n - 1) {
            return None;
        }
        idx += 1;
    }
    let mut buf = String::new();
    let mut k: usize = 0;
    while k < n
        invariant
            k <= n,
            n == frames@.len(),
            views == frame_views(frames@),
            buf@ == joined_text(views.take(k as int)),
        decreases n - k,
    {
        proof {
            assert(views.take(k + 1).drop_last() =~= views.take(k as int));
            assert(views.take(k + 1).last() == frames@[k as int]@);
        }
        match member_text(&frames[k].payload.content, "text") {
            Some(s) => {
                buf.append(s.as_str());
            },
            None => {
                assert(buf@ + Seq::<char>::empty() =~= buf@);
            },
        }
        k += 1;
    }
    proof {
        assert(views.take(n as int) =~= views);
    }
    Some(buf)
}

} // verus!
