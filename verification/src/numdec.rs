//! Decimal printing and strict parsing of `u64` values, used for the
//! numeric fields of the claims serialization.

use vstd::prelude::*;

verus! {

/// Decimal digits of `n`, most significant first, no leading zeros.
pub open spec fn spec_dec(n: u64) -> Seq<u8>
    decreases n,
{
    if n < 10 {
        seq![(48 + n) as u8]
    } else {
        spec_dec(n / 10).push((48 + n % 10) as u8)
    }
}

/// Is this byte an ASCII decimal digit?
pub open spec fn is_dec_digit(c: u8) -> bool {
    48 <= c && c <= 57
}

/// A canonical decimal string: nonempty, all digits, no leading zero.
pub open spec fn valid_dec(s: Seq<u8>) -> bool {
    &&& s.len() > 0
    &&& forall|i: int| 0 <= i < s.len() ==> is_dec_digit(#[trigger] s[i])
    &&& (s[0] != 48 || s.len() == 1)
}

/// The numeric value of a digit string, as an unbounded integer.
pub open spec fn dec_value(s: Seq<u8>) -> int
    decreases s.len(),
{
    if s.len() == 0 {
        0
    } else {
        dec_value(s.drop_last()) * 10 + (s.last() - 48)
    }
}

/// Strict parse: canonical digit strings whose value fits in a `u64`.
pub open spec fn spec_parse_u64(s: Seq<u8>) -> Option<u64> {
    if valid_dec(s) && dec_value(s) <= u64::MAX {
        Some(dec_value(s) as u64)
    } else {
        None
    }
}

/// Appends the decimal digits of `n`.
pub fn push_dec(out: &mut Vec<u8>, n: u64)
    ensures
        final(out)@ == old(out)@ + spec_dec(n),
    decreases n,
{
    if n >= 10 {
        push_dec(out, n / 10);
    }
    out.push(48 + (n % 10) as u8);
    assert(out@ =~= old(out)@ + spec_dec(n));
}

/// Parses the byte range `[from, to)` of `s` as a canonical decimal `u64`.
pub fn parse_u64_range(s: &[u8], from: usize, to: usize) -> (r: Option<u64>)
    requires
        from <= to <= s@.len(),
    ensures
        r == spec_parse_u64(s@.subrange(from as int, to as int)),
{
    let ghost seg = s@.subrange(from as int, to as int);
    if from == to {
        return None;
    }
    if s[from] == 48 && to - from > 1 {
        return None;
    }
    let mut acc: u64 = 0;
    let mut i: usize = from;
    while i < to
        invariant
            from < to <= s@.len(),
            from <= i <= to,
            seg == s@.subrange(from as int, to as int),
            s@[from as int] != 48 || to - from == 1,
            forall|j: int| from <= j < i ==> is_dec_digit(#[trigger] s@[j]),
            acc == dec_value(s@.subrange(from as int, i as int)),
        decreases to - i,
    {
        let c = s[i];
        if c < 48 || c > 57 {
            assert(!valid_dec(seg)) by {
                assert(seg[i - from] == s@[i as int]);
            }
            return None;
        }
        let d = c - 48;
        proof {
            assert(s@.subrange(from as int, i + 1).drop_last() =~= s@.subrange(
                from as int,
                i as int,
            ));
        }
        if acc > (u64::MAX - d as u64) / 10 {
            proof {
                assert(dec_value(s@.subrange(from as int, i + 1)) == acc * 10 + d);
                if forall|j: int| from <= j < to ==> is_dec_digit(#[trigger] s@[j]) {
                    lemma_dec_value_extend(s@, from as int, i + 1, to as int);
                    assert(dec_value(seg) > u64::MAX);
                } else {
                    let j = choose|j: int|
                        from <= j < to && !is_dec_digit(#[trigger] s@[j]);
                    assert(seg[j - from] == s@[j]);
                    assert(!valid_dec(seg));
                }
            }
            return None;
        }
        acc = acc * 10 + d as u64;
        i += 1;
    }
    assert(seg =~= s@.subrange(from as int, i as int));
    assert(valid_dec(seg)) by {
        assert(forall|j: int| 0 <= j < seg.len() ==> seg[j] == s@[from + j]);
        assert(seg[0] == s@[from as int]);
    }
    Some(acc)
}

/// A digit string's value only grows as more digits are appended.
proof fn lemma_dec_value_extend(s: Seq<u8>, from: int, mid: int, to: int)
    requires
        0 <= from <= mid <= to <= s.len(),
        forall|j: int| from <= j < to ==> is_dec_digit(#[trigger] s[j]),
    ensures
        dec_value(s.subrange(from, to)) >= dec_value(s.subrange(from, mid)),
        dec_value(s.subrange(from, to)) >= 0,
    decreases to - mid,
{
    assert(forall|i: int|
        0 <= i < mid - from ==> s.subrange(from, mid)[i] == s[from + i]);
    lemma_dec_value_nonneg(s.subrange(from, mid));
    if mid < to {
        lemma_dec_value_extend(s, from, mid + 1, to);
        assert(s.subrange(from, mid + 1).drop_last() =~= s.subrange(from, mid));
        assert(s.subrange(from, mid + 1).last() == s[mid]);
    } else {
        assert(s.subrange(from, to) =~= s.subrange(from, mid));
    }
}

/// Digit strings have nonnegative values.
proof fn lemma_dec_value_nonneg(s: Seq<u8>)
    requires
        forall|i: int| 0 <= i < s.len() ==> is_dec_digit(#[trigger] s[i]),
    ensures
        dec_value(s) >= 0,
    decreases s.len(),
{
    if s.len() > 0 {
        assert(forall|i: int|
            0 <= i < s.drop_last().len() ==> is_dec_digit(#[trigger] s.drop_last()[i]));
        lemma_dec_value_nonneg(s.drop_last());
    }
}

/// Printing then parsing gives back the number.
pub proof fn lemma_dec_round_trip(n: u64)
    ensures
        spec_parse_u64(spec_dec(n)) == Some(n),
{
    lemma_dec_valid(n);
    lemma_dec_value_of_dec(n);
}

/// The printed form is a canonical digit string.
proof fn lemma_dec_valid(n: u64)
    ensures
        valid_dec(spec_dec(n)),
        spec_dec(n)[0] == 48 ==> n == 0,
    decreases n,
{
    if n >= 10 {
        lemma_dec_valid(n / 10);
        let p = spec_dec(n / 10);
        assert(spec_dec(n) == p.push((48 + n % 10) as u8));
        assert(forall|i: int|
            0 <= i < spec_dec(n).len() - 1 ==> spec_dec(n)[i] == p[i]);
    }
}

/// The printed form evaluates back to the number.
proof fn lemma_dec_value_of_dec(n: u64)
    ensures
        dec_value(spec_dec(n)) == n,
    decreases n,
{
    if n < 10 {
        assert((48 + n) as u8 == 48 + n);
        assert(spec_dec(n).drop_last() =~= Seq::<u8>::empty());
        assert(spec_dec(n).last() == (48 + n) as u8);
        assert(dec_value(Seq::<u8>::empty()) == 0);
        assert(spec_dec(n).len() == 1);
        assert(dec_value(spec_dec(n)) == dec_value(spec_dec(n).drop_last()) * 10 + (spec_dec(
            n,
        ).last() - 48));
    } else {
        lemma_dec_value_of_dec(n / 10);
        assert((48 + n % 10) as u8 == 48 + n % 10);
        assert(spec_dec(n).drop_last() =~= spec_dec(n / 10));
        assert(spec_dec(n).last() == (48 + n % 10) as u8);
        assert(dec_value(spec_dec(n)) == (n / 10) * 10 + n % 10);
    }
}

} // verus!
