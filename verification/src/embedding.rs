//! The lexical embedding of an answer: its words, hashed into 128 buckets and
//! counted, and the test whether two embeddings point the same way.
//!
//! Counts are kept as integers and vectors are never scaled to unit length:
//! the cosine of two count vectors is compared with the threshold by exact
//! integer arithmetic, however large the counts.

use vstd::prelude::*;
use vstd::utf8::encode_utf8;
use crate::text::{alphanumeric, chars_of, is_alphanumeric, lowercase, push_char, to_lowercase};
use crate::wide::Wide;

verus! {

/// The number of buckets.
pub const DIM: usize = 128;

pub const FNV_OFFSET: u64 = 0xcbf29ce484222325;

pub const FNV_PRIME: u64 = 0x100000001b3;

/// The threshold of similarity, 0.85, as a fraction.
pub const THRESHOLD_NUM: u64 = 17;

pub const THRESHOLD_DEN: u64 = 20;

/// A character that is neither a letter, a number nor a space becomes a
/// space.
pub open spec fn blank_out(c: char) -> char {
    if alphanumeric(c) || c == ' ' {
        c
    } else {
        ' '
    }
}

/// The text with every mark blanked out.
pub open spec fn blanked(s: Seq<char>) -> Seq<char> {
    Seq::new(s.len(), |i: int| blank_out(s[i]))
}

/// The normalized form of a text: in lowercase, marks blanked out.
pub open spec fn normalized(s: Seq<char>) -> Seq<char> {
    blanked(lowercase(s))
}

/// Blanks out every character that is neither a letter, a number nor a
/// space.
pub fn blank_marks(s: &str) -> (r: String)
    ensures
        r@ == blanked(s@),
{
    let chars = chars_of(s);
    let mut out = String::new();
    let mut i: usize = 0;
    while i < chars.len()
        invariant
            i <= chars.len(),
            chars@ == s@,
            out@ == blanked(s@.take(i as int)),
        decreases chars.len() - i,
    {
        let c = chars[i];
        let kept = if is_alphanumeric(c) || c == ' ' {
            c
        } else {
            ' '
        };
        push_char(&mut out, kept);
        assert(out@ =~= blanked(s@.take(i + 1)));
        i += 1;
    }
    assert(s@.take(i as int) =~= s@);
    out
}

/// Normalizes a text: lowercase, then every mark blanked out.
pub fn normalize(s: &str) -> (r: String)
    ensures
        r@ == normalized(s@),
{
    let lower = to_lowercase(s);
    blank_marks(lower.as_str())
}

/// The words of a byte string: its longest stretches without a space.
pub open spec fn words(bytes: Seq<u8>) -> Seq<Seq<u8>>
    decreases bytes.len(),
{
    if bytes.len() == 0 {
        Seq::empty()
    } else {
        let before = words(bytes.drop_last());
        if bytes.last() == 32 {
            before
        } else if bytes.len() == 1 || bytes[bytes.len() - 2] == 32 {
            before.push(seq![bytes.last()])
        } else {
            before.update(before.len() - 1, before.last().push(bytes.last()))
        }
    }
}

/// The hash of a word: FNV-1a over its bytes, in 64 bits.
pub open spec fn fnv1a(word: Seq<u8>) -> u64
    decreases word.len(),
{
    if word.len() == 0 {
        FNV_OFFSET
    } else {
        (fnv1a(word.drop_last()) ^ (word.last() as u64)).wrapping_mul(FNV_PRIME)
    }
}

/// The bucket of a word.
pub open spec fn bucket(word: Seq<u8>) -> int {
    fnv1a(word) as int % 128
}

/// How many of the words fall into bucket `k`.
pub open spec fn tally(ws: Seq<Seq<u8>>, k: int) -> nat
    decreases ws.len(),
{
    if ws.len() == 0 {
        0
    } else {
        tally(ws.drop_last(), k) + if bucket(ws.last()) == k {
            1nat
        } else {
            0nat
        }
    }
}

/// The embedding of a normalized text given by its bytes: for each bucket,
/// the number of words that fall into it.
pub open spec fn embedding_of(bytes: Seq<u8>) -> Seq<u64> {
    Seq::new(128, |k: int| tally(words(bytes), k) as u64)
}

/// The embedding of a text.
pub open spec fn embedding(text: Seq<char>) -> Seq<u64> {
    embedding_of(encode_utf8(normalized(text)))
}

/// An embedding has one count for each bucket.
pub open spec fn is_embedding(e: Seq<u64>) -> bool {
    e.len() == 128
}

fn zeros() -> (r: Vec<u64>)
    ensures
        r@.len() == 128,
        forall|k: int| 0 <= k < 128 ==> r@[k] == 0,
{
    let mut v: Vec<u64> = Vec::new();
    let mut k: usize = 0;
    while k < DIM
        invariant
            k <= 128,
            v@.len() == k,
            forall|j: int| 0 <= j < k ==> v@[j] == 0,
        decreases 128 - k,
    {
        v.push(0);
        k += 1;
    }
    v
}

/// Embeds a normalized text.
pub fn embed_normalized(text: &str) -> (r: Vec<u64>)
    ensures
        r@ == embedding_of(encode_utf8(text@)),
        is_embedding(r@),
{
    let bytes = text.as_bytes();
    let ghost all = bytes@;
    let mut counts = zeros();
    let mut hash: u64 = FNV_OFFSET;
    let mut open = false;
    let mut i: usize = 0;
    while i < bytes.len()
        invariant
            i <= bytes.len(),
            all == bytes@,
            counts@.len() == 128,
            open == (i > 0 && all[i - 1] != 32),
            open ==> words(all.take(i as int)).len() > 0,
            open ==> hash == fnv1a(words(all.take(i as int)).last()),
            forall|k: int|
                0 <= k < 128 ==> #[trigger] counts@[k] == tally(
                    if open {
                        words(all.take(i as int)).drop_last()
                    } else {
                        words(all.take(i as int))
                    },
                    k,
                ),
            forall|k: int| 0 <= k < 128 ==> #[trigger] counts@[k] + (if open { 1int } else { 0int }) <= i,
        decreases bytes.len() - i,
    {
        let b = bytes[i];
        let ghost before = words(all.take(i as int));
        let ghost after = words(all.take(i + 1));
        proof {
            assert(all.take(i + 1).drop_last() =~= all.take(i as int));
            assert(all.take(i + 1).last() == b);
            if i > 0 {
                assert(all.take(i + 1)[i - 1] == all[i - 1]);
            }
        }
        if b == 32 {
            if open {
                let idx = (hash % 128) as usize;
                counts.set(idx, counts[idx] + 1);
                proof {
                    assert(after == before);
                    assert(before =~= before.drop_last().push(before.last()));
                }
            }
            open = false;
            hash = FNV_OFFSET;
        } else {
            if open {
                proof {
                    assert(after == before.update(before.len() - 1, before.last().push(b)));
                    assert(after.drop_last() =~= before.drop_last());
                    assert(after.last().drop_last() =~= before.last());
                }
                hash = (hash ^ (b as u64)).wrapping_mul(FNV_PRIME);
            } else {
                proof {
                    assert(after == before.push(seq![b]));
                    assert(after.drop_last() =~= before);
                    assert(seq![b].drop_last() =~= Seq::<u8>::empty());
                    reveal_with_fuel(fnv1a, 2);
                }
                hash = (FNV_OFFSET ^ (b as u64)).wrapping_mul(FNV_PRIME);
            }
            open = true;
        }
        i += 1;
    }
    proof {
        assert(all.take(i as int) =~= all);
    }
    if open {
        let idx = (hash % 128) as usize;
        counts.set(idx, counts[idx] + 1);
        proof {
            let ws = words(all);
            assert(ws =~= ws.drop_last().push(ws.last()));
        }
    }
    assert(counts@ =~= embedding_of(all));
    counts
}

/// Embeds a text: normalizes it and counts its words by bucket.
pub fn embed(s: &str) -> (r: Vec<u64>)
    ensures
        r@ == embedding(s@),
        is_embedding(r@),
{
    let text = normalize(s);
    embed_normalized(text.as_str())
}

/// The inner product of the first `n` counts of two embeddings.
pub open spec fn dot_upto(a: Seq<u64>, b: Seq<u64>, n: int) -> int
    decreases n,
{
    if n <= 0 {
        0
    } else {
        dot_upto(a, b, n - 1) + a[n - 1] * b[n - 1]
    }
}

/// The inner product of two embeddings.
pub open spec fn dot(a: Seq<u64>, b: Seq<u64>) -> int {
    dot_upto(a, b, 128)
}

/// Whether the cosine of two embeddings is at least 0.85. The cosine of `a`
/// and `b` is `dot(a, b)` over the square root of `dot(a, a) * dot(b, b)`;
/// counts are not negative, so the comparison can be made on the squares. An
/// embedding without words is close to nothing.
pub open spec fn close(a: Seq<u64>, b: Seq<u64>) -> bool {
    &&& dot(a, a) > 0
    &&& dot(b, b) > 0
    &&& 400 * (dot(a, b) * dot(a, b)) >= 289 * (dot(a, a) * dot(b, b))
}

fn inner(a: &Vec<u64>, b: &Vec<u64>) -> (r: Wide)
    requires
        is_embedding(a@),
        is_embedding(b@),
    ensures
        r@ == dot(a@, b@),
{
    let mut acc = Wide::from_u128(0);
    let mut k: usize = 0;
    while k < DIM
        invariant
            k <= 128,
            is_embedding(a@),
            is_embedding(b@),
            acc@ == dot_upto(a@, b@, k as int),
        decreases 128 - k,
    {
        let x = a[k] as u128;
        let y = b[k] as u128;
        assert(0 <= x * y <= 0xFFFF_FFFF_FFFF_FFFF * 0xFFFF_FFFF_FFFF_FFFF) by (nonlinear_arith)
            requires
                0 <= x <= 0xFFFF_FFFF_FFFF_FFFF,
                0 <= y <= 0xFFFF_FFFF_FFFF_FFFF,
        ;
        let term = Wide::from_u128(x * y);
        acc = acc.plus(&term);
        k += 1;
    }
    acc
}

/// Whether two embeddings are close: cosine at least 0.85.
pub fn similar(a: &Vec<u64>, b: &Vec<u64>) -> (r: bool)
    requires
        is_embedding(a@),
        is_embedding(b@),
    ensures
        r == close(a@, b@),
{
    let aa = inner(a, a);
    let bb = inner(b, b);
    let ab = inner(a, b);
    let one = Wide::from_u128(1);
    if !aa.at_least(&one) || !bb.at_least(&one) {
        return false;
    }
    let left = ab.product(&ab).times(THRESHOLD_DEN * THRESHOLD_DEN);
    let right = aa.product(&bb).times(THRESHOLD_NUM * THRESHOLD_NUM);
    proof {
        let d = dot(a@, b@);
        let x = dot(a@, a@);
        let y = dot(b@, b@);
        assert((d * d) * 400 == 400 * (d * d)) by (nonlinear_arith);
        assert((x * y) * 289 == 289 * (x * y)) by (nonlinear_arith);
    }
    left.at_least(&right)
}

} // verus!
