//! The checksum of a frame: the SHA-256 digest of its canonical encoding, in
//! lowercase hexadecimal.

use serde_json::Value;
use vstd::prelude::*;
use vstd::utf8::{encode_utf8, encode_utf8_decode_utf8};
use crate::canonical::{
    canonical_json, encode_frame, frame_head, payload_head, payload_json, payload_tail,
};
use crate::digest::{hex, is_hex, lemma_hex_injective, lemma_hex_shape, sha256, sha256_digest, to_hex};
use crate::frame::{Frame, FrameView, PayloadView};
use crate::json::json_text;

verus! {

/// The bytes that are hashed: the canonical encoding in UTF-8.
pub open spec fn canonical_bytes(f: FrameView) -> Seq<u8> {
    encode_utf8(canonical_json(f))
}

/// The checksum that belongs to a frame.
pub open spec fn frame_checksum(f: FrameView) -> Seq<char> {
    hex(sha256_digest(canonical_bytes(f)))
}

/// The frame with its checksum set to `c`.
pub open spec fn with_checksum(f: FrameView, c: Seq<char>) -> FrameView {
    FrameView { checksum: Some(c), ..f }
}

/// A frame verifies when it carries the checksum that belongs to it.
pub open spec fn verifies(f: FrameView) -> bool {
    f.checksum == Some(frame_checksum(f))
}

/// Whether a frame carries a checksum of the right shape: 64 hexadecimal
/// digits in lowercase.
pub open spec fn has_shaped_checksum(f: FrameView) -> bool {
    f.checksum matches Some(c) && c.len() == 64 && is_hex(c)
}

/// The frame with another content.
pub open spec fn with_content(f: FrameView, content: Value) -> FrameView {
    FrameView { payload: PayloadView { content: content, ..f.payload }, ..f }
}

impl Frame {
    /// The checksum that belongs to this frame, whatever checksum it carries:
    /// 64 hexadecimal digits in lowercase.
    pub fn compute_checksum(&self) -> (r: String)
        ensures
            r@ == frame_checksum(self@),
            r@.len() == 64,
            is_hex(r@),
    {
        let text = encode_frame(self);
        let digest = sha256(text.as_str().as_bytes());
        to_hex(digest.as_slice())
    }

    /// The frame with its own checksum attached.
    pub fn with_computed_checksum(self) -> (r: Frame)
        ensures
            r@ == with_checksum(self@, frame_checksum(self@)),
            verifies(r@),
            has_shaped_checksum(r@),
    {
        let c = self.compute_checksum();
        let mut f = self;
        f.checksum = Some(c);
        f
    }

    /// Whether the frame carries the checksum that belongs to it.
    pub fn verify_checksum(&self) -> (r: bool)
        ensures
            r == verifies(self@),
    {
        match &self.checksum {
            Some(existing) => {
                let recalc = self.compute_checksum();
                *existing == recalc
            },
            None => false,
        }
    }
}

/// Whether every frame of a sequence verifies.
pub fn validate_fragment_checksums(frames: &[Frame]) -> (r: bool)
    ensures
        r == (forall|i: int| 0 <= i < frames@.len() ==> verifies(#[trigger] frames@[i]@)),
{
    let mut i: usize = 0;
    while i < frames.len()
        invariant
            i <= frames@.len(),
            forall|j: int| 0 <= j < i ==> verifies(#[trigger] frames@[j]@),
        decreases frames@.len() - i,
    {
        if !frames[i].verify_checksum() {
            return false;
        }
        i += 1;
    }
    true
}

/// The checksum of a frame does not depend on the checksum and the signature
/// that it carries.
pub proof fn lemma_checksum_ignores_checksum_and_sig(
    f: FrameView,
    checksum: Option<Seq<char>>,
    sig: Option<Seq<char>>,
)
    ensures
        frame_checksum(FrameView { checksum: checksum, sig: sig, ..f }) == frame_checksum(f),
{
}

/// A frame to which its computed checksum was attached verifies.
pub proof fn lemma_computed_checksum_verifies(f: FrameView)
    ensures
        verifies(with_checksum(f, frame_checksum(f))),
{
}

proof fn lemma_middle_differs(a: Seq<char>, x: Seq<char>, y: Seq<char>, b: Seq<char>)
    requires
        x != y,
    ensures
        a + x + b != a + y + b,
{
    if a + x + b == a + y + b {
        assert((a + x + b).len() == (a + y + b).len());
        assert(x.len() == y.len());
        assert forall|i: int| 0 <= i < x.len() implies x[i] == y[i] by {
            assert((a + x + b)[a.len() + i] == x[i]);
            assert((a + y + b)[a.len() + i] == y[i]);
        }
        assert(x =~= y);
    }
}

/// Two frames that differ in the text of their content alone have different
/// canonical encodings.
pub proof fn lemma_content_change_changes_encoding(f: FrameView, content: Value)
    requires
        json_text(content) != json_text(f.payload.content),
    ensures
        canonical_bytes(with_content(f, content)) != canonical_bytes(f),
{
    let g = with_content(f, content);
    lemma_middle_differs(
        payload_head(f.payload),
        json_text(content),
        json_text(f.payload.content),
        payload_tail(f.payload),
    );
    lemma_middle_differs(frame_head(f), payload_json(g.payload), payload_json(f.payload), "}"@);
    encode_utf8_decode_utf8(canonical_json(f));
    encode_utf8_decode_utf8(canonical_json(g));
}

/// Rendering the digest in hexadecimal loses nothing: two frames have one
/// checksum exactly when their canonical encodings have one digest.
pub proof fn lemma_checksum_equal_iff_digest_equal(f: FrameView, g: FrameView)
    ensures
        frame_checksum(f) == frame_checksum(g) <==> sha256_digest(canonical_bytes(f))
            == sha256_digest(canonical_bytes(g)),
{
    let a = sha256_digest(canonical_bytes(f));
    let b = sha256_digest(canonical_bytes(g));
    if hex(a) == hex(b) {
        lemma_hex_shape(a);
        lemma_hex_shape(b);
        lemma_hex_injective(a, b);
    }
}

/// A change of the content changes the checksum, unless SHA-256 gives the two
/// canonical encodings one digest.
pub proof fn lemma_content_change_changes_checksum(f: FrameView, content: Value)
    requires
        sha256_digest(canonical_bytes(with_content(f, content))) != sha256_digest(
            canonical_bytes(f),
        ),
    ensures
        frame_checksum(with_content(f, content)) != frame_checksum(f),
{
    lemma_checksum_equal_iff_digest_equal(with_content(f, content), f);
}

} // verus!
