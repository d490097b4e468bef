//! Hexadecimal text of byte strings: the lowercase form this node writes,
//! and the `0x`-prefixed 32-byte values it reads back.

use vstd::prelude::*;

verus! {

/// The lowercase hexadecimal digit for a value below 16.
pub open spec fn hex_digit(n: u8) -> u8 {
    if n < 10 { (0x30 + n) as u8 } else { (0x61 + n - 10) as u8 }
}

/// Lowercase hexadecimal text of a byte string: two digits per byte, the
/// high nibble first.
pub open spec fn hex_text(s: Seq<u8>) -> Seq<u8>
    decreases s.len(),
{
    if s.len() == 0 {
        Seq::empty()
    } else {
        hex_text(s.drop_last()) + seq![hex_digit(s.last() / 16), hex_digit(s.last() % 16)]
    }
}

/// Calls `hex::encode` and takes the bytes of the string. Claimed, as the
/// crate documents: lowercase hexadecimal, two digits per input byte.
#[verifier::external_body]
pub(crate) fn hex_encode(bytes: &[u8]) -> (r: Vec<u8>)
    ensures
        r@ == hex_text(bytes@),
{
    hex::encode(bytes).into_bytes()
}

/// The value of a hexadecimal digit of either case.
pub open spec fn hex_value(c: u8) -> Option<u8> {
    if 0x41 <= c <= 0x46 {
        Some((c - 0x41 + 10) as u8)
    } else if 0x61 <= c <= 0x66 {
        Some((c - 0x61 + 10) as u8)
    } else if 0x30 <= c <= 0x39 {
        Some((c - 0x30) as u8)
    } else {
        None
    }
}

/// The bytes a hexadecimal text denotes: two digits per byte, high nibble
/// first; nothing for an odd length or a non-digit.
pub open spec fn hex_decoded(s: Seq<u8>) -> Option<Seq<u8>>
    decreases s.len(),
{
    if s.len() % 2 != 0 {
        None
    } else if s.len() == 0 {
        Some(Seq::empty())
    } else {
        match (hex_decoded(s.subrange(0, s.len() - 2)), hex_value(s[s.len() - 2]), hex_value(s[s.len() - 1])) {
            (Some(prefix), Some(hi), Some(lo)) => Some(prefix.push((hi * 16 + lo) as u8)),
            _ => None,
        }
    }
}

/// Calls `hex::decode`, keeping the bytes and dropping the error's detail.
/// Claimed, as the crate's source shows: digits of either case, two per
/// byte; an odd length or any other character is an error.
#[verifier::external_body]
fn hex_decode(text: &[u8]) -> (r: Option<Vec<u8>>)
    ensures
        match hex_decoded(text@) {
            Some(v) => r matches Some(w) && w@ == v,
            None => r is None,
        },
{
    hex::decode(text).ok()
}

/// `s` without every leading `0x`.
pub open spec fn strip_0x(s: Seq<u8>) -> Seq<u8>
    decreases s.len(),
{
    if s.len() >= 2 && s[0] == 0x30 && s[1] == 0x78 {
        strip_0x(s.skip(2))
    } else {
        s
    }
}

/// The 32-byte value a hexadecimal text denotes, after its leading `0x`
/// prefixes; `None` when the rest is not the text of exactly 32 bytes.
pub open spec fn spec_parse_hex32(text: Seq<u8>) -> Option<Seq<u8>> {
    match hex_decoded(strip_0x(text)) {
        Some(v) => if v.len() == 32 { Some(v) } else { None },
        None => None,
    }
}

/// Reads a hash, an address or a task id written in hexadecimal, with or
/// without `0x` in front.
pub fn parse_hex32(text: &[u8]) -> (r: Option<[u8; 32]>)
    ensures
        match spec_parse_hex32(text@) {
            Some(v) => r matches Some(a) && a@ == v,
            None => r is None,
        },
{
    let mut start: usize = 0;
    proof {
        assert(text@.skip(0) =~= text@);
    }
    while text.len() - start >= 2 && text[start] == 0x30 && text[start + 1] == 0x78
        invariant
            0 <= start <= text@.len(),
            strip_0x(text@.skip(start as int)) == strip_0x(text@),
        decreases text@.len() - start,
    {
        proof {
            assert(text@.skip(start as int).skip(2) =~= text@.skip(start + 2));
        }
        start = start + 2;
    }
    let ghost rest = text@.skip(start as int);
    proof {
        assert(strip_0x(rest) == rest);
    }
    let mut digits: Vec<u8> = Vec::new();
    let mut i: usize = start;
    while i < text.len()
        invariant
            start <= i <= text@.len(),
            digits@ == text@.subrange(start as int, i as int),
        decreases text@.len() - i,
    {
        digits.push(text[i]);
        proof {
            assert(digits@ =~= text@.subrange(start as int, i + 1));
        }
        i += 1;
    }
    proof {
        assert(digits@ =~= rest);
    }
    match hex_decode(digits.as_slice()) {
        None => None,
        Some(v) => {
            if v.len() != 32 {
                return None;
            }
            let a = crate::codec::read_array32(v.as_slice(), 0);
            proof {
                assert(v@.subrange(0, 32) =~= v@);
            }
            Some(a)
        },
    }
}

proof fn lemma_hex_digit_value(n: u8)
    requires
        n < 16,
    ensures
        hex_value(hex_digit(n)) == Some(n),
        hex_digit(n) != 0x78,
{
}

proof fn lemma_hex_text_shape(s: Seq<u8>)
    ensures
        hex_text(s).len() == 2 * s.len(),
        forall|i: int|
            0 <= i < s.len() ==> hex_text(s)[2 * i] == hex_digit(#[trigger] s[i] / 16) && hex_text(s)[2 * i + 1]
                == hex_digit(s[i] % 16),
    decreases s.len(),
{
    if s.len() > 0 {
        lemma_hex_text_shape(s.drop_last());
        assert forall|i: int| 0 <= i < s.len() implies hex_text(s)[2 * i] == hex_digit(#[trigger] s[i] / 16)
            && hex_text(s)[2 * i + 1] == hex_digit(s[i] % 16) by {
            if i < s.len() - 1 {
                assert(s.drop_last()[i] == s[i]);
            }
        }
    }
}

proof fn lemma_hex_text_decodes(s: Seq<u8>)
    ensures
        hex_decoded(hex_text(s)) == Some(s),
    decreases s.len(),
{
    if s.len() > 0 {
        let t = hex_text(s);
        let b = s.last();
        lemma_hex_text_decodes(s.drop_last());
        lemma_hex_text_shape(s.drop_last());
        lemma_hex_digit_value(b / 16);
        lemma_hex_digit_value(b % 16);
        assert(t.subrange(0, t.len() - 2) =~= hex_text(s.drop_last()));
        assert(t[t.len() - 2] == hex_digit(b / 16));
        assert(t[t.len() - 1] == hex_digit(b % 16));
        assert((b / 16) * 16 + b % 16 == b);
        assert(s.drop_last().push(b) =~= s);
    } else {
        assert(hex_text(s) =~= Seq::<u8>::empty());
    }
}

/// Reading back the hexadecimal text of a 32-byte value, with or without a
/// `0x` in front, gives the value.
pub proof fn law_hex32_roundtrip(a: [u8; 32])
    ensures
        spec_parse_hex32(hex_text(a@)) == Some(a@),
        spec_parse_hex32(seq![0x30u8, 0x78u8] + hex_text(a@)) == Some(a@),
{
    let t = hex_text(a@);
    lemma_hex_text_shape(a@);
    lemma_hex_text_decodes(a@);
    lemma_hex_digit_value(a@[0] % 16);
    assert(t[1] == hex_digit(a@[0] % 16));
    assert(strip_0x(t) == t);
    let u = seq![0x30u8, 0x78u8] + t;
    assert(u.skip(2) =~= t);
    assert(strip_0x(u) == strip_0x(t));
}

} // verus!
