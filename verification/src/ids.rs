//! 128-bit identifiers, their canonical hyphenated-hex text form, and the
//! big-endian byte form carried in encrypted invitation payloads.

use vstd::prelude::*;

use crate::hexcode::{hex_char_of, hex_digit_value, hex_val, is_hex_digit};

verus! {

/// A 128-bit identifier, stored as two 64-bit halves (most significant first).
#[derive(Clone, Copy, Debug, PartialEq, Eq, Structural)]
pub struct Uid {
    pub hi: u64,
    pub lo: u64,
}

/// Sixteen to the `k`-th power.
pub open spec fn pow16(k: nat) -> int
    decreases k,
{
    if k == 0 {
        1
    } else {
        16 * pow16((k - 1) as nat)
    }
}

/// The last `k` hex digits of `x`, most significant first.
pub open spec fn spec_hex_fixed(x: u64, k: nat) -> Seq<u8>
    decreases k,
{
    if k == 0 {
        Seq::empty()
    } else {
        spec_hex_fixed(x / 16, (k - 1) as nat).push(hex_char_of((x % 16) as u8))
    }
}

/// The value of a hex digit string, as an unbounded integer.
pub open spec fn hex_value(s: Seq<u8>) -> int
    decreases s.len(),
{
    if s.len() == 0 {
        0
    } else {
        hex_value(s.drop_last()) * 16 + hex_val(s.last())
    }
}

/// Do `k` hex digit bytes stand at `from` in `s`?
pub open spec fn hex_run(s: Seq<u8>, from: int, k: int) -> bool {
    forall|j: int| from <= j < from + k ==> is_hex_digit(#[trigger] s[j])
}

/// The value of the `k` hex digits at `from` in `s`.
pub open spec fn seg_val(s: Seq<u8>, from: int, k: int) -> int {
    hex_value(s.subrange(from, from + k))
}

/// The canonical 36-byte hyphenated form of an identifier.
pub open spec fn spec_uid_bytes(u: Uid) -> Seq<u8> {
    spec_hex_fixed((u.hi / 0x100000000) as u64, 8) + seq![45u8] + spec_hex_fixed(
        ((u.hi / 0x10000) % 0x10000) as u64,
        4,
    ) + seq![45u8] + spec_hex_fixed((u.hi % 0x10000) as u64, 4) + seq![45u8] + spec_hex_fixed(
        (u.lo / 0x1000000000000) as u64,
        4,
    ) + seq![45u8] + spec_hex_fixed((u.lo % 0x1000000000000) as u64, 12)
}

/// Strict parse of the 36 bytes at `off` as a hyphenated identifier.
pub open spec fn spec_parse_uid(s: Seq<u8>, off: int) -> Option<Uid> {
    if off + 36 <= s.len() && s[off + 8] == 45 && s[off + 13] == 45 && s[off + 18] == 45 && s[off
        + 23] == 45 && hex_run(s, off, 8) && hex_run(s, off + 9, 4) && hex_run(s, off + 14, 4)
        && hex_run(s, off + 19, 4) && hex_run(s, off + 24, 12) {
        Some(
            Uid {
                hi: (seg_val(s, off, 8) * 0x100000000 + seg_val(s, off + 9, 4) * 0x10000 + seg_val(
                    s,
                    off + 14,
                    4,
                )) as u64,
                lo: (seg_val(s, off + 19, 4) * 0x1000000000000 + seg_val(s, off + 24, 12)) as u64,
            },
        )
    } else {
        None
    }
}

/// Appends the last `k` hex digits of `x`.
pub fn push_hex_fixed(out: &mut Vec<u8>, x: u64, k: usize)
    ensures
        final(out)@ == old(out)@ + spec_hex_fixed(x, k as nat),
    decreases k,
{
    if k == 0 {
        assert(out@ =~= old(out)@ + spec_hex_fixed(x, 0));
        return ;
    }
    push_hex_fixed(out, x / 16, k - 1);
    let d = (x % 16) as u8;
    out.push(if d < 10 {
        48 + d
    } else {
        87 + d
    });
    assert(out@ =~= old(out)@ + spec_hex_fixed(x, k as nat));
}

/// Appends the canonical hyphenated form of `u`.
pub fn push_uid(out: &mut Vec<u8>, u: &Uid)
    ensures
        final(out)@ == old(out)@ + spec_uid_bytes(*u),
{
    push_hex_fixed(out, u.hi / 0x100000000, 8);
    out.push(45);
    push_hex_fixed(out, (u.hi / 0x10000) % 0x10000, 4);
    out.push(45);
    push_hex_fixed(out, u.hi % 0x10000, 4);
    out.push(45);
    push_hex_fixed(out, u.lo / 0x1000000000000, 4);
    out.push(45);
    push_hex_fixed(out, u.lo % 0x1000000000000, 12);
    assert(out@ =~= old(out)@ + spec_uid_bytes(*u));
}

/// Parses the `k` hex digits at `from`; their value fits in a `u64`.
fn parse_hex_fixed(s: &[u8], from: usize, k: usize) -> (r: Option<u64>)
    requires
        from + k <= s@.len(),
        k <= 16,
    ensures
        match r {
            Some(v) => hex_run(s@, from as int, k as int) && v == seg_val(
                s@,
                from as int,
                k as int,
            ),
            None => !hex_run(s@, from as int, k as int),
        },
{
    let slen = s.len();
    let mut acc: u64 = 0;
    let mut i: usize = 0;
    proof {
        lemma_pow16_le(k as nat, 16);
        assert(s@.subrange(from as int, from as int) =~= Seq::<u8>::empty());
    }
    while i < k
        invariant
            from + k <= slen == s@.len(),
            i <= k <= 16,
            hex_run(s@, from as int, i as int),
            acc == seg_val(s@, from as int, i as int),
            acc < pow16(i as nat),
        decreases k - i,
    {
        let c = s[from + i];
        let v = match hex_digit_value(c) {
            Some(v) => v,
            None => {
                return None;
            },
        };
        proof {
            lemma_pow16_le(k as nat, 16);
            lemma_pow16_le((i + 1) as nat, 16 as nat);
            lemma_pow16_pos(i as nat);
            assert(pow16((i + 1) as nat) == 16 * pow16(i as nat));
            assert(pow16(16) == 0x10000000000000000) by {
                lemma_pow16_value_16();
            }
            assert(s@.subrange(from as int, from + i + 1).drop_last() =~= s@.subrange(
                from as int,
                from + i,
            ));
        }
        acc = acc * 16 + v as u64;
        i += 1;
    }
    Some(acc)
}

/// Parses the 36 bytes at `off` as a hyphenated identifier.
pub fn parse_uid_at(s: &[u8], off: usize) -> (r: Option<Uid>)
    requires
        off + 36 <= s@.len(),
    ensures
        r == spec_parse_uid(s@, off as int),
{
    let slen = s.len();
    assert(off + 36 <= slen);
    if s[off + 8] != 45 || s[off + 13] != 45 || s[off + 18] != 45 || s[off + 23] != 45 {
        return None;
    }
    let h1 = match parse_hex_fixed(s, off, 8) {
        Some(v) => v,
        None => {
            return None;
        },
    };
    let h2 = match parse_hex_fixed(s, off + 9, 4) {
        Some(v) => v,
        None => {
            return None;
        },
    };
    let h3 = match parse_hex_fixed(s, off + 14, 4) {
        Some(v) => v,
        None => {
            return None;
        },
    };
    let l1 = match parse_hex_fixed(s, off + 19, 4) {
        Some(v) => v,
        None => {
            return None;
        },
    };
    let l2 = match parse_hex_fixed(s, off + 24, 12) {
        Some(v) => v,
        None => {
            return None;
        },
    };
    proof {
        lemma_seg_val_bound(s@, off as int, 8);
        lemma_seg_val_bound(s@, off + 9, 4);
        lemma_seg_val_bound(s@, off + 14, 4);
        lemma_seg_val_bound(s@, off + 19, 4);
        lemma_seg_val_bound(s@, off + 24, 12);
        lemma_pow16_values();
    }
    Some(
        Uid {
            hi: h1 * 0x100000000 + h2 * 0x10000 + h3,
            lo: l1 * 0x1000000000000 + l2,
        },
    )
}

/// Big-endian bytes: the last `k` bytes of `x`, most significant first.
pub open spec fn spec_be_bytes(x: u64, k: nat) -> Seq<u8>
    decreases k,
{
    if k == 0 {
        Seq::empty()
    } else {
        spec_be_bytes(x / 256, (k - 1) as nat).push((x % 256) as u8)
    }
}

/// The sixteen-byte big-endian form of an identifier.
pub open spec fn spec_uid_be_bytes(u: Uid) -> Seq<u8> {
    spec_be_bytes(u.hi, 8) + spec_be_bytes(u.lo, 8)
}

/// Appends the last `k` big-endian bytes of `x`.
pub fn push_be_bytes(out: &mut Vec<u8>, x: u64, k: usize)
    ensures
        final(out)@ == old(out)@ + spec_be_bytes(x, k as nat),
    decreases k,
{
    if k == 0 {
        assert(out@ =~= old(out)@ + spec_be_bytes(x, 0));
        return ;
    }
    push_be_bytes(out, x / 256, k - 1);
    out.push((x % 256) as u8);
    assert(out@ =~= old(out)@ + spec_be_bytes(x, k as nat));
}

/// The sixteen-byte big-endian form of `u`.
pub fn uid_be_bytes(u: &Uid) -> (r: Vec<u8>)
    ensures
        r@ == spec_uid_be_bytes(*u),
        r@.len() == 16,
{
    let mut out: Vec<u8> = Vec::new();
    push_be_bytes(&mut out, u.hi, 8);
    push_be_bytes(&mut out, u.lo, 8);
    proof {
        lemma_be_bytes_len(u.hi, 8);
        lemma_be_bytes_len(u.lo, 8);
        assert(out@ =~= spec_uid_be_bytes(*u));
    }
    out
}

/// `spec_be_bytes` has length `k`.
pub proof fn lemma_be_bytes_len(x: u64, k: nat)
    ensures
        spec_be_bytes(x, k).len() == k,
    decreases k,
{
    if k > 0 {
        lemma_be_bytes_len(x / 256, (k - 1) as nat);
    }
}

/// `spec_hex_fixed` has length `k`.
pub proof fn lemma_hex_fixed_len(x: u64, k: nat)
    ensures
        spec_hex_fixed(x, k).len() == k,
    decreases k,
{
    if k > 0 {
        lemma_hex_fixed_len(x / 16, (k - 1) as nat);
    }
}

/// Powers of sixteen are positive.
proof fn lemma_pow16_pos(k: nat)
    ensures
        pow16(k) >= 1,
    decreases k,
{
    if k > 0 {
        lemma_pow16_pos((k - 1) as nat);
    }
}

/// Powers of sixteen are monotone in the exponent.
proof fn lemma_pow16_le(a: nat, b: nat)
    requires
        a <= b,
    ensures
        pow16(a) <= pow16(b),
    decreases b,
{
    if a < b {
        lemma_pow16_le(a, (b - 1) as nat);
        lemma_pow16_pos((b - 1) as nat);
    }
}

/// The value of sixteen to the sixteenth.
proof fn lemma_pow16_value_16()
    ensures
        pow16(16) == 0x10000000000000000,
{
    lemma_pow16_values();
    assert(pow16(13) == 16 * pow16(12));
    assert(pow16(14) == 16 * pow16(13));
    assert(pow16(15) == 16 * pow16(14));
    assert(pow16(16) == 16 * pow16(15));
}

/// The small powers of sixteen used by the identifier layout.
proof fn lemma_pow16_values()
    ensures
        pow16(4) == 0x10000,
        pow16(8) == 0x100000000,
        pow16(12) == 0x1000000000000,
{
    assert(pow16(1) == 16 * pow16(0));
    assert(pow16(2) == 16 * pow16(1));
    assert(pow16(3) == 16 * pow16(2));
    assert(pow16(4) == 16 * pow16(3));
    assert(pow16(5) == 16 * pow16(4));
    assert(pow16(6) == 16 * pow16(5));
    assert(pow16(7) == 16 * pow16(6));
    assert(pow16(8) == 16 * pow16(7));
    assert(pow16(9) == 16 * pow16(8));
    assert(pow16(10) == 16 * pow16(9));
    assert(pow16(11) == 16 * pow16(10));
    assert(pow16(12) == 16 * pow16(11));
}

/// A run of `k` hex digits has a value below sixteen to the `k`-th.
proof fn lemma_hex_value_bound(s: Seq<u8>)
    requires
        forall|i: int| 0 <= i < s.len() ==> is_hex_digit(#[trigger] s[i]),
    ensures
        0 <= hex_value(s) < pow16(s.len()),
    decreases s.len(),
{
    if s.len() == 0 {
    } else {
        assert(forall|i: int|
            0 <= i < s.drop_last().len() ==> is_hex_digit(#[trigger] s.drop_last()[i]));
        lemma_hex_value_bound(s.drop_last());
        assert(is_hex_digit(s.last()));
        assert(hex_val(s.last()) < 16);
    }
}

/// A segment value is bounded by sixteen to the segment length.
proof fn lemma_seg_val_bound(s: Seq<u8>, from: int, k: int)
    requires
        0 <= from,
        0 <= k,
        from + k <= s.len(),
        hex_run(s, from, k),
    ensures
        0 <= seg_val(s, from, k) < pow16(k as nat),
{
    assert(forall|i: int|
        0 <= i < k ==> #[trigger] s.subrange(from, from + k)[i] == s[from + i]);
    lemma_hex_value_bound(s.subrange(from, from + k));
}

/// Parsing the canonical form gives back the identifier.
pub proof fn lemma_uid_round_trip(u: Uid)
    ensures
        spec_parse_uid(spec_uid_bytes(u), 0) == Some(u),
        spec_uid_bytes(u).len() == 36,
{
    lemma_pow16_values();
    let s = spec_uid_bytes(u);
    let a = spec_hex_fixed((u.hi / 0x100000000) as u64, 8);
    let b = spec_hex_fixed(((u.hi / 0x10000) % 0x10000) as u64, 4);
    let c = spec_hex_fixed((u.hi % 0x10000) as u64, 4);
    let d = spec_hex_fixed((u.lo / 0x1000000000000) as u64, 4);
    let e = spec_hex_fixed((u.lo % 0x1000000000000) as u64, 12);
    lemma_hex_fixed_len((u.hi / 0x100000000) as u64, 8);
    lemma_hex_fixed_len(((u.hi / 0x10000) % 0x10000) as u64, 4);
    lemma_hex_fixed_len((u.hi % 0x10000) as u64, 4);
    lemma_hex_fixed_len((u.lo / 0x1000000000000) as u64, 4);
    lemma_hex_fixed_len((u.lo % 0x1000000000000) as u64, 12);
    lemma_hex_fixed_digits((u.hi / 0x100000000) as u64, 8);
    lemma_hex_fixed_digits(((u.hi / 0x10000) % 0x10000) as u64, 4);
    lemma_hex_fixed_digits((u.hi % 0x10000) as u64, 4);
    lemma_hex_fixed_digits((u.lo / 0x1000000000000) as u64, 4);
    lemma_hex_fixed_digits((u.lo % 0x1000000000000) as u64, 12);
    assert(s.len() == 36);
    assert(s[8] == 45 && s[13] == 45 && s[18] == 45 && s[23] == 45);
    assert(s.subrange(0, 8) =~= a);
    assert(s.subrange(9, 13) =~= b);
    assert(s.subrange(14, 18) =~= c);
    assert(s.subrange(19, 23) =~= d);
    assert(s.subrange(24, 36) =~= e);
    lemma_hex_fixed_value((u.hi / 0x100000000) as u64, 8);
    lemma_hex_fixed_value(((u.hi / 0x10000) % 0x10000) as u64, 4);
    lemma_hex_fixed_value((u.hi % 0x10000) as u64, 4);
    lemma_hex_fixed_value((u.lo / 0x1000000000000) as u64, 4);
    lemma_hex_fixed_value((u.lo % 0x1000000000000) as u64, 12);
    assert((u.hi / 0x100000000) < 0x100000000);
    assert((u.lo / 0x1000000000000) < 0x10000);
    assert(hex_value(a) == (u.hi / 0x100000000) as u64 % 0x100000000);
    assert(hex_value(a) == u.hi / 0x100000000);
    assert(hex_value(b) == (u.hi / 0x10000) % 0x10000);
    assert(hex_value(c) == u.hi % 0x10000);
    assert(hex_value(d) == u.lo / 0x1000000000000);
    assert(hex_value(e) == u.lo % 0x1000000000000);
    assert((u.hi / 0x100000000) * 0x100000000 + ((u.hi / 0x10000) % 0x10000) * 0x10000 + u.hi
        % 0x10000 == u.hi) by (nonlinear_arith);
    assert((u.lo / 0x1000000000000) * 0x1000000000000 + u.lo % 0x1000000000000 == u.lo)
        by (nonlinear_arith);
    assert(hex_run(s, 0, 8));
    assert(hex_run(s, 9, 4));
    assert(hex_run(s, 14, 4));
    assert(hex_run(s, 19, 4));
    assert(hex_run(s, 24, 12));
}

/// The fixed-width hex form holds only hex digit bytes.
proof fn lemma_hex_fixed_digits(x: u64, k: nat)
    ensures
        forall|j: int| 0 <= j < spec_hex_fixed(x, k).len() ==> is_hex_digit(
            #[trigger] spec_hex_fixed(x, k)[j],
        ),
    decreases k,
{
    if k > 0 {
        lemma_hex_fixed_digits(x / 16, (k - 1) as nat);
        lemma_hex_fixed_len(x / 16, (k - 1) as nat);
        assert(forall|j: int|
            0 <= j < k - 1 ==> spec_hex_fixed(x, k)[j] == spec_hex_fixed(x / 16, (k - 1) as nat)[j]);
    }
}

/// The fixed-width hex form evaluates to `x` modulo sixteen to the `k`-th.
proof fn lemma_hex_fixed_value(x: u64, k: nat)
    ensures
        hex_value(spec_hex_fixed(x, k)) == x as int % pow16(k),
    decreases k,
{
    lemma_pow16_pos(k);
    if k == 0 {
        assert(x as int % 1 == 0);
    } else {
        lemma_hex_fixed_value(x / 16, (k - 1) as nat);
        lemma_pow16_pos((k - 1) as nat);
        let p = pow16((k - 1) as nat);
        assert(spec_hex_fixed(x, k).drop_last() =~= spec_hex_fixed(x / 16, (k - 1) as nat));
        assert(hex_val(hex_char_of((x % 16) as u8)) == x % 16);
        assert(hex_value(spec_hex_fixed(x, k)) == ((x / 16) as int % p) * 16 + x % 16);
        vstd::arithmetic::div_mod::lemma_mod_breakdown(x as int, 16, p);
        assert(x as int % (16 * p) == 16 * ((x as int / 16) % p) + x as int % 16);
    }
}

} // verus!
