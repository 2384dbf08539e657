//! URL-safe base64 with padding: the outer layer of the token wire format.
//!
//! Encoding and strict (canonical) decoding are both implemented here, with a
//! proof that decoding inverts encoding.

use vstd::prelude::*;

verus! {

/// The URL-safe base64 alphabet byte for a value below 64.
pub open spec fn b64_char_of(v: u8) -> u8 {
    if v < 26 {
        (65 + v) as u8
    } else if v < 52 {
        (71 + v) as u8
    } else if v < 62 {
        (v - 4) as u8
    } else if v == 62 {
        45u8
    } else {
        95u8
    }
}

/// Is this byte in the URL-safe base64 alphabet?
pub open spec fn is_b64_char(c: u8) -> bool {
    (65 <= c && c <= 90) || (97 <= c && c <= 122) || (48 <= c && c <= 57) || c == 45 || c == 95
}

/// The value of a URL-safe base64 alphabet byte.
pub open spec fn b64_val(c: u8) -> u8 {
    if 65 <= c && c <= 90 {
        (c - 65) as u8
    } else if 97 <= c && c <= 122 {
        (c - 71) as u8
    } else if 48 <= c && c <= 57 {
        (c + 4) as u8
    } else if c == 45 {
        62u8
    } else {
        63u8
    }
}

/// Padded URL-safe base64 encoding, three input bytes to four output bytes.
pub open spec fn spec_b64_encode(b: Seq<u8>) -> Seq<u8>
    decreases b.len(),
{
    if b.len() == 0 {
        Seq::empty()
    } else if b.len() == 1 {
        seq![
            b64_char_of(b[0] / 4),
            b64_char_of(((b[0] % 4) * 16) as u8),
            61u8,
            61u8,
        ]
    } else if b.len() == 2 {
        seq![
            b64_char_of(b[0] / 4),
            b64_char_of(((b[0] % 4) * 16 + b[1] / 16) as u8),
            b64_char_of(((b[1] % 16) * 4) as u8),
            61u8,
        ]
    } else {
        seq![
            b64_char_of(b[0] / 4),
            b64_char_of(((b[0] % 4) * 16 + b[1] / 16) as u8),
            b64_char_of(((b[1] % 16) * 4 + b[2] / 64) as u8),
            b64_char_of((b[2] % 64) as u8),
        ] + spec_b64_encode(b.skip(3))
    }
}

/// Strict decoding: length a multiple of four, canonical padding, and zero
/// trailing bits in a final partial group.
pub open spec fn spec_b64_decode(s: Seq<u8>) -> Option<Seq<u8>>
    decreases s.len(),
{
    if s.len() == 0 {
        Some(Seq::empty())
    } else if s.len() < 4 {
        None
    } else {
        let c0 = s[0];
        let c1 = s[1];
        let c2 = s[2];
        let c3 = s[3];
        if !(is_b64_char(c0) && is_b64_char(c1)) {
            None
        } else if c3 == 61 {
            if s.len() != 4 {
                None
            } else if c2 == 61 {
                if b64_val(c1) % 16 == 0 {
                    Some(seq![(b64_val(c0) * 4 + b64_val(c1) / 16) as u8])
                } else {
                    None
                }
            } else if is_b64_char(c2) && b64_val(c2) % 4 == 0 {
                Some(
                    seq![
                        (b64_val(c0) * 4 + b64_val(c1) / 16) as u8,
                        ((b64_val(c1) % 16) * 16 + b64_val(c2) / 4) as u8,
                    ],
                )
            } else {
                None
            }
        } else if is_b64_char(c2) && is_b64_char(c3) {
            match spec_b64_decode(s.skip(4)) {
                Some(rest) => Some(
                    seq![
                        (b64_val(c0) * 4 + b64_val(c1) / 16) as u8,
                        ((b64_val(c1) % 16) * 16 + b64_val(c2) / 4) as u8,
                        ((b64_val(c2) % 4) * 64 + b64_val(c3)) as u8,
                    ] + rest,
                ),
                None => None,
            }
        } else {
            None
        }
    }
}

/// The alphabet byte for a six-bit value.
pub fn b64_char(v: u8) -> (r: u8)
    requires
        v < 64,
    ensures
        r == b64_char_of(v),
{
    if v < 26 {
        65 + v
    } else if v < 52 {
        71 + v
    } else if v < 62 {
        v - 4
    } else if v == 62 {
        45
    } else {
        95
    }
}

/// The six-bit value of an alphabet byte, or `None`.
pub fn b64_value(c: u8) -> (r: Option<u8>)
    ensures
        match r {
            Some(v) => is_b64_char(c) && v == b64_val(c) && v < 64,
            None => !is_b64_char(c),
        },
{
    if 65 <= c && c <= 90 {
        Some(c - 65)
    } else if 97 <= c && c <= 122 {
        Some(c - 71)
    } else if 48 <= c && c <= 57 {
        Some(c + 4)
    } else if c == 45 {
        Some(62)
    } else if c == 95 {
        Some(63)
    } else {
        None
    }
}

/// Encodes bytes as padded URL-safe base64.
pub fn b64_encode(b: &[u8]) -> (r: Vec<u8>)
    ensures
        r@ == spec_b64_encode(b@),
{
    let n = b.len();
    let mut r: Vec<u8> = Vec::new();
    let mut i: usize = 0;
    assert(b@.skip(0) == b@);
    while n - i >= 3
        invariant
            n == b@.len(),
            i <= n,
            spec_b64_encode(b@) =~= r@ + spec_b64_encode(b@.skip(i as int)),
        decreases n - i,
    {
        let b0 = b[i];
        let b1 = b[i + 1];
        let b2 = b[i + 2];
        r.push(b64_char(b0 / 4));
        r.push(b64_char((b0 % 4) * 16 + b1 / 16));
        r.push(b64_char((b1 % 16) * 4 + b2 / 64));
        r.push(b64_char(b2 % 64));
        assert(b@.skip(i as int).skip(3) == b@.skip(i + 3));
        i += 3;
    }
    if n - i == 1 {
        let b0 = b[i];
        r.push(b64_char(b0 / 4));
        r.push(b64_char((b0 % 4) * 16));
        r.push(61);
        r.push(61);
    } else if n - i == 2 {
        let b0 = b[i];
        let b1 = b[i + 1];
        r.push(b64_char(b0 / 4));
        r.push(b64_char((b0 % 4) * 16 + b1 / 16));
        r.push(b64_char((b1 % 16) * 4));
        r.push(61);
    }
    r
}

/// Decodes canonical padded URL-safe base64; `None` on anything else.
pub fn b64_decode(s: &[u8]) -> (r: Option<Vec<u8>>)
    ensures
        match r {
            Some(v) => spec_b64_decode(s@) == Some(v@),
            None => spec_b64_decode(s@) is None,
        },
{
    let n = s.len();
    if n % 4 != 0 {
        proof {
            lemma_b64_decode_len(s@);
        }
        return None;
    }
    let mut r: Vec<u8> = Vec::new();
    let mut i: usize = 0;
    assert(s@.skip(0) == s@);
    while i < n
        invariant
            n == s@.len(),
            n % 4 == 0,
            i % 4 == 0,
            i <= n,
            spec_b64_decode(s@) matches Some(whole) ==> spec_b64_decode(s@.skip(i as int))
                matches Some(rest) && whole == r@ + rest,
            (spec_b64_decode(s@) is Some) == (spec_b64_decode(s@.skip(i as int)) is Some),
        decreases n - i,
    {
        let c0 = s[i];
        let c1 = s[i + 1];
        let c2 = s[i + 2];
        let c3 = s[i + 3];
        let v0 = b64_value(c0);
        let v1 = b64_value(c1);
        let (v0, v1) = match (v0, v1) {
            (Some(v0), Some(v1)) => (v0, v1),
            _ => {
                return None;
            },
        };
        if c3 == 61 {
            if i + 4 != n {
                return None;
            }
            if c2 == 61 {
                if v1 % 16 != 0 {
                    return None;
                }
                r.push(v0 * 4 + v1 / 16);
            } else {
                let v2 = match b64_value(c2) {
                    Some(v2) => v2,
                    None => {
                        return None;
                    },
                };
                if v2 % 4 != 0 {
                    return None;
                }
                r.push(v0 * 4 + v1 / 16);
                r.push((v1 % 16) * 16 + v2 / 4);
            }
            assert(s@.skip(i as int).len() == 4);
            assert(s@.skip(n as int) =~= Seq::<u8>::empty());
            i += 4;
        } else {
            let v2 = match b64_value(c2) {
                Some(v2) => v2,
                None => {
                    return None;
                },
            };
            let v3 = match b64_value(c3) {
                Some(v3) => v3,
                None => {
                    return None;
                },
            };
            r.push(v0 * 4 + v1 / 16);
            r.push((v1 % 16) * 16 + v2 / 4);
            r.push((v2 % 4) * 64 + v3);
            assert(s@.skip(i as int).skip(4) == s@.skip(i + 4));
            i += 4;
        }
    }
    assert(s@.skip(n as int) =~= Seq::<u8>::empty());
    assert(r@ + Seq::<u8>::empty() =~= r@);
    Some(r)
}

/// A string whose length is not a multiple of four never decodes.
pub proof fn lemma_b64_decode_len(s: Seq<u8>)
    requires
        s.len() % 4 != 0,
    ensures
        spec_b64_decode(s) is None,
    decreases s.len(),
{
    if s.len() >= 4 && is_b64_char(s[0]) && is_b64_char(s[1]) && s[3] != 61 && is_b64_char(s[2])
        && is_b64_char(s[3]) {
        lemma_b64_decode_len(s.skip(4));
    }
}

/// No alphabet byte is the padding byte.
proof fn lemma_b64_char_not_pad(v: u8)
    requires
        v < 64,
    ensures
        b64_char_of(v) != 61,
        is_b64_char(b64_char_of(v)),
        b64_val(b64_char_of(v)) == v,
{
}

/// Decoding inverts encoding.
pub proof fn lemma_b64_round_trip(b: Seq<u8>)
    ensures
        spec_b64_decode(spec_b64_encode(b)) == Some(b),
    decreases b.len(),
{
    if b.len() == 0 {
        assert(spec_b64_encode(b) =~= Seq::<u8>::empty());
    } else if b.len() == 1 {
        let b0 = b[0];
        lemma_b64_char_not_pad(b0 / 4);
        lemma_b64_char_not_pad(((b0 % 4) * 16) as u8);
        assert(spec_b64_decode(spec_b64_encode(b)) == Some(b)) by {
            let e = spec_b64_encode(b);
            assert(b64_val(e[1]) % 16 == 0);
            assert(b64_val(e[0]) * 4 + b64_val(e[1]) / 16 == b0);
            assert(seq![b0] =~= b);
        }
    } else if b.len() == 2 {
        let b0 = b[0];
        let b1 = b[1];
        lemma_b64_char_not_pad(b0 / 4);
        lemma_b64_char_not_pad(((b0 % 4) * 16 + b1 / 16) as u8);
        lemma_b64_char_not_pad(((b1 % 16) * 4) as u8);
        assert(spec_b64_decode(spec_b64_encode(b)) == Some(b)) by {
            let e = spec_b64_encode(b);
            assert(b64_val(e[2]) % 4 == 0);
            assert(b64_val(e[0]) * 4 + b64_val(e[1]) / 16 == b0);
            assert((b64_val(e[1]) % 16) * 16 + b64_val(e[2]) / 4 == b1);
            assert(seq![b0, b1] =~= b);
        }
    } else {
        let b0 = b[0];
        let b1 = b[1];
        let b2 = b[2];
        lemma_b64_round_trip(b.skip(3));
        lemma_b64_char_not_pad(b0 / 4);
        lemma_b64_char_not_pad(((b0 % 4) * 16 + b1 / 16) as u8);
        lemma_b64_char_not_pad(((b1 % 16) * 4 + b2 / 64) as u8);
        lemma_b64_char_not_pad((b2 % 64) as u8);
        let e = spec_b64_encode(b);
        assert(e.skip(4) =~= spec_b64_encode(b.skip(3)));
        assert(spec_b64_decode(spec_b64_encode(b)) == Some(b)) by {
            assert(b64_val(e[0]) * 4 + b64_val(e[1]) / 16 == b0);
            assert((b64_val(e[1]) % 16) * 16 + b64_val(e[2]) / 4 == b1);
            assert((b64_val(e[2]) % 4) * 64 + b64_val(e[3]) == b2);
            assert(seq![b0, b1, b2] + b.skip(3) =~= b);
        }
    }
}

/// Every byte of a base64 encoding is ASCII.
pub proof fn lemma_b64_encode_ascii(b: Seq<u8>)
    ensures
        forall|i: int|
            0 <= i < spec_b64_encode(b).len() ==> #[trigger] spec_b64_encode(b)[i] < 128,
    decreases b.len(),
{
    if b.len() > 2 {
        lemma_b64_encode_ascii(b.skip(3));
    }
    assert forall|i: int|
        0 <= i < spec_b64_encode(b).len() implies #[trigger] spec_b64_encode(b)[i] < 128 by {
        if b.len() > 2 && i >= 4 {
            assert(spec_b64_encode(b)[i] == spec_b64_encode(b.skip(3))[i - 4]);
        }
    }
}

/// Encoding of a nonempty string has at least four bytes.
pub proof fn lemma_b64_encode_len(b: Seq<u8>)
    ensures
        b.len() == 0 ==> spec_b64_encode(b).len() == 0,
        b.len() != 0 ==> spec_b64_encode(b).len() >= 4,
    decreases b.len(),
{
    if b.len() > 2 {
        lemma_b64_encode_len(b.skip(3));
    }
}

} // verus!
