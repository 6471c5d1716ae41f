//! SHA-256 and its lowercase hexadecimal rendering.

use sha2::Digest;
use vstd::prelude::*;
use crate::text::push_char;

verus! {

/// The SHA-256 digest of a byte string.
pub uninterp spec fn sha256_digest(data: Seq<u8>) -> Seq<u8>;

/// `Sha256::digest` of the `sha2` crate: the digest of `data`, 32 bytes long.
#[verifier::external_body]
pub(crate) fn sha256(data: &[u8]) -> (r: Vec<u8>)
    ensures
        r@ == sha256_digest(data@),
        r@.len() == 32,
{
    sha2::Sha256::digest(data).to_vec()
}

/// The lowercase hexadecimal digit of a value below sixteen.
pub open spec fn hex_digit(n: int) -> char {
    if n == 0 {
        '0'
    } else if n == 1 {
        '1'
    } else if n == 2 {
        '2'
    } else if n == 3 {
        '3'
    } else if n == 4 {
        '4'
    } else if n == 5 {
        '5'
    } else if n == 6 {
        '6'
    } else if n == 7 {
        '7'
    } else if n == 8 {
        '8'
    } else if n == 9 {
        '9'
    } else if n == 10 {
        'a'
    } else if n == 11 {
        'b'
    } else if n == 12 {
        'c'
    } else if n == 13 {
        'd'
    } else if n == 14 {
        'e'
    } else {
        'f'
    }
}

/// Two digits per byte, high nibble first.
pub open spec fn hex(data: Seq<u8>) -> Seq<char>
    decreases data.len(),
{
    if data.len() == 0 {
        Seq::empty()
    } else {
        hex(data.drop_last()).push(hex_digit(data.last() as int / 16)).push(
            hex_digit(data.last() as int % 16),
        )
    }
}

fn hex_char(n: u8) -> (c: char)
    requires
        n < 16,
    ensures
        c == hex_digit(n as int),
{
    match n {
        0 => '0',
        1 => '1',
        2 => '2',
        3 => '3',
        4 => '4',
        5 => '5',
        6 => '6',
        7 => '7',
        8 => '8',
        9 => '9',
        10 => 'a',
        11 => 'b',
        12 => 'c',
        13 => 'd',
        14 => 'e',
        _ => 'f',
    }
}

/// Whether the character is a decimal digit or one of the letters `a` to
/// `f`.
pub open spec fn is_hex_digit(c: char) -> bool {
    c == '0' || c == '1' || c == '2' || c == '3' || c == '4' || c == '5' || c == '6' || c == '7'
        || c == '8' || c == '9' || c == 'a' || c == 'b' || c == 'c' || c == 'd' || c == 'e' || c
        == 'f'
}

/// Whether a text is made of hexadecimal digits in lowercase.
pub open spec fn is_hex(s: Seq<char>) -> bool {
    forall|i: int| 0 <= i < s.len() ==> is_hex_digit(#[trigger] s[i])
}

/// A rendering has two characters for each byte, all of them hexadecimal
/// digits in lowercase.
pub proof fn lemma_hex_shape(data: Seq<u8>)
    ensures
        hex(data).len() == 2 * data.len(),
        is_hex(hex(data)),
    decreases data.len(),
{
    if data.len() > 0 {
        lemma_hex_shape(data.drop_last());
        let before = hex(data.drop_last());
        let high = hex_digit(data.last() as int / 16);
        let low = hex_digit(data.last() as int % 16);
        assert forall|i: int| 0 <= i < hex(data).len() implies is_hex_digit(
            #[trigger] hex(data)[i],
        ) by {
            if i < before.len() {
                assert(hex(data)[i] == before[i]);
            } else if i == before.len() {
                assert(hex(data)[i] == high);
            } else {
                assert(hex(data)[i] == low);
            }
        }
    }
}

/// Renders bytes as lowercase hexadecimal text.
pub fn to_hex(data: &[u8]) -> (r: String)
    ensures
        r@ == hex(data@),
        r@.len() == 2 * data@.len(),
        is_hex(r@),
{
    proof {
        lemma_hex_shape(data@);
    }
    let mut out = String::new();
    let mut i: usize = 0;
    while i < data.len()
        invariant
            i <= data.len(),
            out@ == hex(data@.take(i as int)),
        decreases data.len() - i,
    {
        let b: u8 = data[i];
        proof {
            assert(data@.take(i + 1).drop_last() =~= data@.take(i as int));
            assert(data@.take(i + 1).last() == b);
        }
        push_char(&mut out, hex_char(b / 16));
        push_char(&mut out, hex_char(b % 16));
        i += 1;
    }
    proof {
        assert(data@.take(i as int) =~= data@);
    }
    out
}

/// Distinct values below sixteen have distinct digits.
pub proof fn lemma_hex_digit_injective(a: int, b: int)
    requires
        0 <= a < 16,
        0 <= b < 16,
        hex_digit(a) == hex_digit(b),
    ensures
        a == b,
{
}

/// Byte strings of one length with one rendering are equal.
pub proof fn lemma_hex_injective(a: Seq<u8>, b: Seq<u8>)
    requires
        a.len() == b.len(),
        hex(a) == hex(b),
    ensures
        a == b,
    decreases a.len(),
{
    if a.len() > 0 {
        lemma_hex_shape(a.drop_last());
        lemma_hex_shape(b.drop_last());
        let ha = hex(a.drop_last());
        let hb = hex(b.drop_last());
        let a1 = hex_digit(a.last() as int / 16);
        let a0 = hex_digit(a.last() as int % 16);
        let b1 = hex_digit(b.last() as int / 16);
        let b0 = hex_digit(b.last() as int % 16);
        assert(hex(a) == ha.push(a1).push(a0));
        assert(hex(b) == hb.push(b1).push(b0));
        assert(ha.push(a1).push(a0).last() == a0);
        assert(hb.push(b1).push(b0).last() == b0);
        assert(a0 == b0);
        assert(ha.push(a1).push(a0).drop_last() =~= ha.push(a1));
        assert(hb.push(b1).push(b0).drop_last() =~= hb.push(b1));
        assert(ha.push(a1) == hb.push(b1));
        assert(ha.push(a1).last() == a1);
        assert(hb.push(b1).last() == b1);
        assert(a1 == b1);
        assert(ha.push(a1).drop_last() =~= ha);
        assert(hb.push(b1).drop_last() =~= hb);
        assert(ha == hb);
        lemma_hex_digit_injective(a.last() as int / 16, b.last() as int / 16);
        lemma_hex_digit_injective(a.last() as int % 16, b.last() as int % 16);
        lemma_hex_injective(a.drop_last(), b.drop_last());
        assert(a.last() == b.last());
        assert(a =~= a.drop_last().push(a.last()));
        assert(b =~= b.drop_last().push(b.last()));
    } else {
        assert(a =~= b);
    }
}

} // verus!
