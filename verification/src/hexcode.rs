//! Lowercase hex encoding of byte strings, and strict decoding.
//!
//! Token signatures travel as hex inside the token string, so the codec
//! needs both directions and a proof that they invert each other.

use vstd::prelude::*;

verus! {

/// The lowercase hex digit (as an ASCII byte) for a value below 16.
pub open spec fn hex_char_of(v: u8) -> u8 {
    if v < 10 {
        (48 + v) as u8
    } else {
        (87 + v) as u8
    }
}

/// Is this ASCII byte a hex digit (either case)?
pub open spec fn is_hex_digit(c: u8) -> bool {
    (48 <= c && c <= 57) || (97 <= c && c <= 102) || (65 <= c && c <= 70)
}

/// The value of a hex digit byte.
pub open spec fn hex_val(c: u8) -> u8 {
    if 48 <= c && c <= 57 {
        (c - 48) as u8
    } else if 97 <= c && c <= 102 {
        (c - 87) as u8
    } else {
        (c - 55) as u8
    }
}

/// Lowercase hex encoding: two digit bytes per input byte.
pub open spec fn spec_hex_encode(b: Seq<u8>) -> Seq<u8>
    decreases b.len(),
{
    if b.len() == 0 {
        Seq::empty()
    } else {
        seq![hex_char_of(b.first() / 16), hex_char_of((b.first() % 16) as u8)]
            + spec_hex_encode(b.drop_first())
    }
}

/// Strict hex decoding: requires an even number of hex digit bytes.
pub open spec fn spec_hex_decode(s: Seq<u8>) -> Option<Seq<u8>>
    decreases s.len(),
{
    if s.len() == 0 {
        Some(Seq::empty())
    } else if s.len() == 1 {
        None
    } else if is_hex_digit(s[0]) && is_hex_digit(s[1]) {
        match spec_hex_decode(s.skip(2)) {
            Some(rest) => Some(seq![(hex_val(s[0]) * 16 + hex_val(s[1])) as u8] + rest),
            None => None,
        }
    } else {
        None
    }
}

/// Encodes bytes as lowercase hex.
pub fn hex_encode(b: &[u8]) -> (r: Vec<u8>)
    ensures
        r@ == spec_hex_encode(b@),
        r@.len() == 2 * b@.len(),
{
    proof {
        lemma_hex_encode_len(b@);
    }
    let n = b.len();
    let mut r: Vec<u8> = Vec::new();
    assert(b@.skip(0) == b@);
    for i in 0..n
        invariant
            n == b@.len(),
            spec_hex_encode(b@) =~= r@ + spec_hex_encode(b@.skip(i as int)),
            r@.len() == 2 * i,
    {
        let byte = b[i];
        let hi = byte / 16;
        let lo = byte % 16;
        r.push(if hi < 10 { 48 + hi } else { 87 + hi });
        r.push(if lo < 10 { 48 + lo } else { 87 + lo });
        assert(b@.skip(i as int).drop_first() == b@.skip(i + 1));
    }
    r
}

/// Decodes a hex string; `None` on odd length or a non-digit byte.
pub fn hex_decode(s: &[u8]) -> (r: Option<Vec<u8>>)
    ensures
        match r {
            Some(v) => spec_hex_decode(s@) == Some(v@),
            None => spec_hex_decode(s@) is None,
        },
{
    let n = s.len();
    if n % 2 != 0 {
        proof {
            lemma_hex_decode_odd(s@);
        }
        return None;
    }
    let mut r: Vec<u8> = Vec::new();
    let mut i: usize = 0;
    assert(s@.skip(0) == s@);
    while i < n
        invariant
            n == s@.len(),
            n % 2 == 0,
            i % 2 == 0,
            i <= n,
            spec_hex_decode(s@) matches Some(whole) ==> spec_hex_decode(s@.skip(i as int))
                matches Some(rest) && whole == r@ + rest,
            (spec_hex_decode(s@) is Some) == (spec_hex_decode(s@.skip(i as int)) is Some),
        decreases n - i,
    {
        let c0 = s[i];
        let c1 = s[i + 1];
        let v0 = hex_digit_value(c0);
        let v1 = hex_digit_value(c1);
        match (v0, v1) {
            (Some(v0), Some(v1)) => {
                r.push(v0 * 16 + v1);
            },
            _ => {
                assert(spec_hex_decode(s@.skip(i as int)) is None);
                return None;
            },
        }
        assert(s@.skip(i as int).skip(2) == s@.skip(i + 2));
        i += 2;
    }
    assert(s@.skip(n as int) =~= Seq::<u8>::empty());
    assert(r@ + Seq::<u8>::empty() =~= r@);
    Some(r)
}

/// The value of one hex digit byte, or `None`.
pub fn hex_digit_value(c: u8) -> (r: Option<u8>)
    ensures
        match r {
            Some(v) => is_hex_digit(c) && v == hex_val(c) && v < 16,
            None => !is_hex_digit(c),
        },
{
    if 48 <= c && c <= 57 {
        Some(c - 48)
    } else if 97 <= c && c <= 102 {
        Some(c - 87)
    } else if 65 <= c && c <= 70 {
        Some(c - 55)
    } else {
        None
    }
}

/// Hex encoding always has even length, twice the input's.
pub proof fn lemma_hex_encode_len(b: Seq<u8>)
    ensures
        spec_hex_encode(b).len() == 2 * b.len(),
    decreases b.len(),
{
    if b.len() > 0 {
        lemma_hex_encode_len(b.drop_first());
    }
}

/// A string of odd length never decodes.
pub proof fn lemma_hex_decode_odd(s: Seq<u8>)
    requires
        s.len() % 2 == 1,
    ensures
        spec_hex_decode(s) is None,
    decreases s.len(),
{
    if s.len() > 1 && is_hex_digit(s[0]) && is_hex_digit(s[1]) {
        lemma_hex_decode_odd(s.skip(2));
    }
}

/// Every byte of a hex encoding is a hex digit byte.
pub proof fn lemma_hex_encode_digits(b: Seq<u8>)
    ensures
        forall|i: int|
            0 <= i < spec_hex_encode(b).len() ==> is_hex_digit(#[trigger] spec_hex_encode(b)[i]),
    decreases b.len(),
{
    if b.len() > 0 {
        lemma_hex_encode_digits(b.drop_first());
        assert forall|i: int|
            0 <= i < spec_hex_encode(b).len() implies is_hex_digit(
            #[trigger] spec_hex_encode(b)[i],
        ) by {
            if i >= 2 {
                assert(spec_hex_encode(b)[i] == spec_hex_encode(b.drop_first())[i - 2]);
            } else {
                assert(spec_hex_encode(b)[0] == hex_char_of(b.first() / 16));
                assert(spec_hex_encode(b)[1] == hex_char_of((b.first() % 16) as u8));
            }
        }
    }
}

/// Decoding inverts encoding.
pub proof fn lemma_hex_round_trip(b: Seq<u8>)
    ensures
        spec_hex_decode(spec_hex_encode(b)) == Some(b),
    decreases b.len(),
{
    if b.len() == 0 {
        assert(spec_hex_encode(b) =~= Seq::<u8>::empty());
    } else {
        lemma_hex_round_trip(b.drop_first());
        let e = spec_hex_encode(b);
        assert(e.skip(2) =~= spec_hex_encode(b.drop_first()));
        let b0 = b.first();
        assert(is_hex_digit(hex_char_of(b0 / 16)));
        assert(is_hex_digit(hex_char_of((b0 % 16) as u8)));
        assert(hex_val(hex_char_of(b0 / 16)) == b0 / 16);
        assert(hex_val(hex_char_of((b0 % 16) as u8)) == b0 % 16);
        assert(hex_val(e[0]) * 16 + hex_val(e[1]) == b0);
        assert(seq![b0] + b.drop_first() =~= b);
    }
}

} // verus!
