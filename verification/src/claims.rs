//! Claims structures for the three token kinds, and their canonical JSON
//! serialization: fixed key order, no whitespace, identifiers in hyphenated
//! hex, expiration as a plain decimal.  Claims are always serialized this way
//! before signing, so the signature covers one well-defined byte string.

use vstd::prelude::*;

use crate::ids::{
    parse_uid_at, push_uid, spec_parse_uid, spec_uid_bytes, lemma_uid_round_trip, Uid,
};
use crate::numdec::{push_dec, parse_u64_range, spec_dec, spec_parse_u64, lemma_dec_round_trip,
    is_dec_digit};
use crate::hexcode::is_hex_digit;
use crate::ids::lemma_hex_fixed_len;

verus! {

/// Claims of a long-lived budget access token.
#[derive(Clone, Copy, Debug, PartialEq, Eq, Structural)]
pub struct BudgetAccessTokenClaims {
    pub key_id: Uid,
    pub budget_id: Uid,
    pub expiration: u64,
}

impl BudgetAccessTokenClaims {
    /// The moment after which the token is no longer honored.
    pub fn expiration(&self) -> (r: u64)
        ensures
            r == self.expiration,
    {
        self.expiration
    }
}

/// Claims of a single-use invitation accept token.
#[derive(Clone, Copy, Debug, PartialEq, Eq, Structural)]
pub struct BudgetAcceptTokenClaims {
    /// Invitation ID.
    pub iid: Uid,
    /// Accept key ID.
    pub kid: Uid,
    /// Budget ID.
    pub bid: Uid,
    /// Expiration.
    pub exp: u64,
}

impl BudgetAcceptTokenClaims {
    /// The moment after which the token is no longer honored.
    pub fn expiration(&self) -> (r: u64)
        ensures
            r == self.exp,
    {
        self.exp
    }
}

/// Claims of the token that proves who sent an invitation.
#[derive(Clone, Copy, Debug, PartialEq, Eq, Structural)]
pub struct BudgetInviteSenderTokenClaims {
    pub invite_id: Uid,
    pub expiration: u64,
}

impl BudgetInviteSenderTokenClaims {
    /// The moment after which the token is no longer honored.
    pub fn expiration(&self) -> (r: u64)
        ensures
            r == self.expiration,
    {
        self.expiration
    }
}

// The literal byte chunks of the canonical JSON forms.
/// `{"key_id":"`
pub open spec fn lit_access_a() -> Seq<u8> {
    seq![123u8, 34, 107, 101, 121, 95, 105, 100, 34, 58, 34]
}

/// `","budget_id":"`
pub open spec fn lit_access_b() -> Seq<u8> {
    seq![34u8, 44, 34, 98, 117, 100, 103, 101, 116, 95, 105, 100, 34, 58, 34]
}

/// `","expiration":`
pub open spec fn lit_expiration() -> Seq<u8> {
    seq![34u8, 44, 34, 101, 120, 112, 105, 114, 97, 116, 105, 111, 110, 34, 58]
}

/// `{"iid":"`
pub open spec fn lit_accept_a() -> Seq<u8> {
    seq![123u8, 34, 105, 105, 100, 34, 58, 34]
}

/// `","kid":"`
pub open spec fn lit_accept_b() -> Seq<u8> {
    seq![34u8, 44, 34, 107, 105, 100, 34, 58, 34]
}

/// `","bid":"`
pub open spec fn lit_accept_c() -> Seq<u8> {
    seq![34u8, 44, 34, 98, 105, 100, 34, 58, 34]
}

/// `","exp":`
pub open spec fn lit_accept_d() -> Seq<u8> {
    seq![34u8, 44, 34, 101, 120, 112, 34, 58]
}

/// `{"invite_id":"`
pub open spec fn lit_invite_a() -> Seq<u8> {
    seq![123u8, 34, 105, 110, 118, 105, 116, 101, 95, 105, 100, 34, 58, 34]
}

/// The canonical JSON bytes of access token claims.
pub open spec fn spec_access_json(c: BudgetAccessTokenClaims) -> Seq<u8> {
    lit_access_a() + spec_uid_bytes(c.key_id) + lit_access_b() + spec_uid_bytes(c.budget_id)
        + lit_expiration() + spec_dec(c.expiration) + seq![125u8]
}

/// The canonical JSON bytes of accept token claims.
pub open spec fn spec_accept_json(c: BudgetAcceptTokenClaims) -> Seq<u8> {
    lit_accept_a() + spec_uid_bytes(c.iid) + lit_accept_b() + spec_uid_bytes(c.kid)
        + lit_accept_c() + spec_uid_bytes(c.bid) + lit_accept_d() + spec_dec(c.exp) + seq![125u8]
}

/// The canonical JSON bytes of invite sender token claims.
pub open spec fn spec_invite_json(c: BudgetInviteSenderTokenClaims) -> Seq<u8> {
    lit_invite_a() + spec_uid_bytes(c.invite_id) + lit_expiration() + spec_dec(c.expiration)
        + seq![125u8]
}

/// Strict parse of access token claims JSON.
pub open spec fn spec_parse_access_json(s: Seq<u8>) -> Option<BudgetAccessTokenClaims> {
    if s.len() >= 115 && s.subrange(0, 11) == lit_access_a() && s.subrange(47, 62)
        == lit_access_b() && s.subrange(98, 113) == lit_expiration() && s.last() == 125 {
        match (
            spec_parse_uid(s, 11),
            spec_parse_uid(s, 62),
            spec_parse_u64(s.subrange(113, s.len() - 1)),
        ) {
            (Some(key_id), Some(budget_id), Some(expiration)) => Some(
                BudgetAccessTokenClaims { key_id, budget_id, expiration },
            ),
            _ => None,
        }
    } else {
        None
    }
}

/// Strict parse of accept token claims JSON.
pub open spec fn spec_parse_accept_json(s: Seq<u8>) -> Option<BudgetAcceptTokenClaims> {
    if s.len() >= 144 && s.subrange(0, 8) == lit_accept_a() && s.subrange(44, 53)
        == lit_accept_b() && s.subrange(89, 98) == lit_accept_c() && s.subrange(134, 142)
        == lit_accept_d() && s.last() == 125 {
        match (
            spec_parse_uid(s, 8),
            spec_parse_uid(s, 53),
            spec_parse_uid(s, 98),
            spec_parse_u64(s.subrange(142, s.len() - 1)),
        ) {
            (Some(iid), Some(kid), Some(bid), Some(exp)) => Some(
                BudgetAcceptTokenClaims { iid, kid, bid, exp },
            ),
            _ => None,
        }
    } else {
        None
    }
}

/// Strict parse of invite sender token claims JSON.
pub open spec fn spec_parse_invite_json(s: Seq<u8>) -> Option<BudgetInviteSenderTokenClaims> {
    if s.len() >= 67 && s.subrange(0, 14) == lit_invite_a() && s.subrange(50, 65)
        == lit_expiration() && s.last() == 125 {
        match (spec_parse_uid(s, 14), spec_parse_u64(s.subrange(65, s.len() - 1))) {
            (Some(invite_id), Some(expiration)) => Some(
                BudgetInviteSenderTokenClaims { invite_id, expiration },
            ),
            _ => None,
        }
    } else {
        None
    }
}

/// Appends the bytes of a literal chunk chosen by a spec-level sequence.
/// (One exec function per chunk keeps the correspondence obvious.)
fn push_lit_access_a(out: &mut Vec<u8>)
    ensures
        final(out)@ == old(out)@ + lit_access_a(),
{
    out.push(123);
    out.push(34);
    out.push(107);
    out.push(101);
    out.push(121);
    out.push(95);
    out.push(105);
    out.push(100);
    out.push(34);
    out.push(58);
    out.push(34);
    assert(out@ =~= old(out)@ + lit_access_a());
}

fn push_lit_access_b(out: &mut Vec<u8>)
    ensures
        final(out)@ == old(out)@ + lit_access_b(),
{
    out.push(34);
    out.push(44);
    out.push(34);
    out.push(98);
    out.push(117);
    out.push(100);
    out.push(103);
    out.push(101);
    out.push(116);
    out.push(95);
    out.push(105);
    out.push(100);
    out.push(34);
    out.push(58);
    out.push(34);
    assert(out@ =~= old(out)@ + lit_access_b());
}

fn push_lit_expiration(out: &mut Vec<u8>)
    ensures
        final(out)@ == old(out)@ + lit_expiration(),
{
    out.push(34);
    out.push(44);
    out.push(34);
    out.push(101);
    out.push(120);
    out.push(112);
    out.push(105);
    out.push(114);
    out.push(97);
    out.push(116);
    out.push(105);
    out.push(111);
    out.push(110);
    out.push(34);
    out.push(58);
    assert(out@ =~= old(out)@ + lit_expiration());
}

fn push_lit_accept_a(out: &mut Vec<u8>)
    ensures
        final(out)@ == old(out)@ + lit_accept_a(),
{
    out.push(123);
    out.push(34);
    out.push(105);
    out.push(105);
    out.push(100);
    out.push(34);
    out.push(58);
    out.push(34);
    assert(out@ =~= old(out)@ + lit_accept_a());
}

fn push_lit_accept_b(out: &mut Vec<u8>)
    ensures
        final(out)@ == old(out)@ + lit_accept_b(),
{
    out.push(34);
    out.push(44);
    out.push(34);
    out.push(107);
    out.push(105);
    out.push(100);
    out.push(34);
    out.push(58);
    out.push(34);
    assert(out@ =~= old(out)@ + lit_accept_b());
}

fn push_lit_accept_c(out: &mut Vec<u8>)
    ensures
        final(out)@ == old(out)@ + lit_accept_c(),
{
    out.push(34);
    out.push(44);
    out.push(34);
    out.push(98);
    out.push(105);
    out.push(100);
    out.push(34);
    out.push(58);
    out.push(34);
    assert(out@ =~= old(out)@ + lit_accept_c());
}

fn push_lit_accept_d(out: &mut Vec<u8>)
    ensures
        final(out)@ == old(out)@ + lit_accept_d(),
{
    out.push(34);
    out.push(44);
    out.push(34);
    out.push(101);
    out.push(120);
    out.push(112);
    out.push(34);
    out.push(58);
    assert(out@ =~= old(out)@ + lit_accept_d());
}

fn push_lit_invite_a(out: &mut Vec<u8>)
    ensures
        final(out)@ == old(out)@ + lit_invite_a(),
{
    out.push(123);
    out.push(34);
    out.push(105);
    out.push(110);
    out.push(118);
    out.push(105);
    out.push(116);
    out.push(101);
    out.push(95);
    out.push(105);
    out.push(100);
    out.push(34);
    out.push(58);
    out.push(34);
    assert(out@ =~= old(out)@ + lit_invite_a());
}

/// Serializes access token claims to canonical JSON bytes.
pub fn access_json(c: &BudgetAccessTokenClaims) -> (r: Vec<u8>)
    ensures
        r@ == spec_access_json(*c),
{
    let mut out: Vec<u8> = Vec::new();
    push_lit_access_a(&mut out);
    push_uid(&mut out, &c.key_id);
    push_lit_access_b(&mut out);
    push_uid(&mut out, &c.budget_id);
    push_lit_expiration(&mut out);
    push_dec(&mut out, c.expiration);
    out.push(125);
    assert(out@ =~= spec_access_json(*c));
    out
}

/// Serializes accept token claims to canonical JSON bytes.
pub fn accept_json(c: &BudgetAcceptTokenClaims) -> (r: Vec<u8>)
    ensures
        r@ == spec_accept_json(*c),
{
    let mut out: Vec<u8> = Vec::new();
    push_lit_accept_a(&mut out);
    push_uid(&mut out, &c.iid);
    push_lit_accept_b(&mut out);
    push_uid(&mut out, &c.kid);
    push_lit_accept_c(&mut out);
    push_uid(&mut out, &c.bid);
    push_lit_accept_d(&mut out);
    push_dec(&mut out, c.exp);
    out.push(125);
    assert(out@ =~= spec_accept_json(*c));
    out
}

/// Serializes invite sender token claims to canonical JSON bytes.
pub fn invite_json(c: &BudgetInviteSenderTokenClaims) -> (r: Vec<u8>)
    ensures
        r@ == spec_invite_json(*c),
{
    let mut out: Vec<u8> = Vec::new();
    push_lit_invite_a(&mut out);
    push_uid(&mut out, &c.invite_id);
    push_lit_expiration(&mut out);
    push_dec(&mut out, c.expiration);
    out.push(125);
    assert(out@ =~= spec_invite_json(*c));
    out
}

/// Do the bytes of `pat` stand at `off` in `s`?
fn range_matches(s: &[u8], off: usize, pat: &Vec<u8>) -> (r: bool)
    requires
        off + pat@.len() <= s@.len(),
    ensures
        r == (s@.subrange(off as int, off + pat@.len()) == pat@),
{
    let n = pat.len();
    let slen = s.len();
    let mut i: usize = 0;
    while i < n
        invariant
            off + n <= slen == s@.len(),
            n == pat@.len(),
            i <= n,
            forall|j: int| 0 <= j < i ==> s@[off + j] == pat@[j],
        decreases n - i,
    {
        if s[off + i] != pat[i] {
            assert(s@.subrange(off as int, off + pat@.len())[i as int] == s@[off + i]);
            return false;
        }
        i += 1;
    }
    assert(s@.subrange(off as int, off + pat@.len()) =~= pat@);
    true
}

/// Parses canonical access token claims JSON.
pub fn parse_access_json(s: &[u8]) -> (r: Option<BudgetAccessTokenClaims>)
    ensures
        r == spec_parse_access_json(s@),
{
    let slen = s.len();
    if slen < 115 {
        return None;
    }
    let mut pat_a: Vec<u8> = Vec::new();
    push_lit_access_a(&mut pat_a);
    let mut pat_b: Vec<u8> = Vec::new();
    push_lit_access_b(&mut pat_b);
    let mut pat_e: Vec<u8> = Vec::new();
    push_lit_expiration(&mut pat_e);
    assert(pat_a@ =~= lit_access_a());
    assert(pat_b@ =~= lit_access_b());
    assert(pat_e@ =~= lit_expiration());
    if !range_matches(s, 0, &pat_a) || !range_matches(s, 47, &pat_b) || !range_matches(
        s,
        98,
        &pat_e,
    ) {
        return None;
    }
    if s[slen - 1] != 125 {
        return None;
    }
    let key_id = match parse_uid_at(s, 11) {
        Some(u) => u,
        None => {
            return None;
        },
    };
    let budget_id = match parse_uid_at(s, 62) {
        Some(u) => u,
        None => {
            return None;
        },
    };
    let expiration = match parse_u64_range(s, 113, slen - 1) {
        Some(n) => n,
        None => {
            return None;
        },
    };
    Some(BudgetAccessTokenClaims { key_id, budget_id, expiration })
}

/// Parses canonical accept token claims JSON.
pub fn parse_accept_json(s: &[u8]) -> (r: Option<BudgetAcceptTokenClaims>)
    ensures
        r == spec_parse_accept_json(s@),
{
    let slen = s.len();
    if slen < 144 {
        return None;
    }
    let mut pat_a: Vec<u8> = Vec::new();
    push_lit_accept_a(&mut pat_a);
    let mut pat_b: Vec<u8> = Vec::new();
    push_lit_accept_b(&mut pat_b);
    let mut pat_c: Vec<u8> = Vec::new();
    push_lit_accept_c(&mut pat_c);
    let mut pat_d: Vec<u8> = Vec::new();
    push_lit_accept_d(&mut pat_d);
    assert(pat_a@ =~= lit_accept_a());
    assert(pat_b@ =~= lit_accept_b());
    assert(pat_c@ =~= lit_accept_c());
    assert(pat_d@ =~= lit_accept_d());
    if !range_matches(s, 0, &pat_a) || !range_matches(s, 44, &pat_b) || !range_matches(
        s,
        89,
        &pat_c,
    ) || !range_matches(s, 134, &pat_d) {
        return None;
    }
    if s[slen - 1] != 125 {
        return None;
    }
    let iid = match parse_uid_at(s, 8) {
        Some(u) => u,
        None => {
            return None;
        },
    };
    let kid = match parse_uid_at(s, 53) {
        Some(u) => u,
        None => {
            return None;
        },
    };
    let bid = match parse_uid_at(s, 98) {
        Some(u) => u,
        None => {
            return None;
        },
    };
    let exp = match parse_u64_range(s, 142, slen - 1) {
        Some(n) => n,
        None => {
            return None;
        },
    };
    Some(BudgetAcceptTokenClaims { iid, kid, bid, exp })
}

/// Parses canonical invite sender token claims JSON.
pub fn parse_invite_json(s: &[u8]) -> (r: Option<BudgetInviteSenderTokenClaims>)
    ensures
        r == spec_parse_invite_json(s@),
{
    let slen = s.len();
    if slen < 67 {
        return None;
    }
    let mut pat_a: Vec<u8> = Vec::new();
    push_lit_invite_a(&mut pat_a);
    let mut pat_e: Vec<u8> = Vec::new();
    push_lit_expiration(&mut pat_e);
    assert(pat_a@ =~= lit_invite_a());
    assert(pat_e@ =~= lit_expiration());
    if !range_matches(s, 0, &pat_a) || !range_matches(s, 50, &pat_e) {
        return None;
    }
    if s[slen - 1] != 125 {
        return None;
    }
    let invite_id = match parse_uid_at(s, 14) {
        Some(u) => u,
        None => {
            return None;
        },
    };
    let expiration = match parse_u64_range(s, 65, slen - 1) {
        Some(n) => n,
        None => {
            return None;
        },
    };
    Some(BudgetInviteSenderTokenClaims { invite_id, expiration })
}

/// Parsing a claims serialization at an offset inside a longer string.
proof fn lemma_parse_uid_shift(s: Seq<u8>, off: int, u: Uid)
    requires
        0 <= off,
        off + 36 <= s.len(),
        s.subrange(off, off + 36) == spec_uid_bytes(u),
    ensures
        spec_parse_uid(s, off) == Some(u),
{
    lemma_uid_round_trip(u);
    let t = spec_uid_bytes(u);
    assert(forall|j: int| 0 <= j < 36 ==> #[trigger] s[off + j] == t[j]) by {
        assert(forall|j: int|
            0 <= j < 36 ==> #[trigger] s.subrange(off, off + 36)[j] == s[off + j]);
    }
    assert(s[off + 8] == t[8] && s[off + 13] == t[13] && s[off + 18] == t[18] && s[off + 23]
        == t[23]);
    assert forall|j: int| off <= j < off + 8 implies is_hex_digit(#[trigger] s[j]) by {
        assert(s[j] == t[j - off]);
        assert(is_hex_digit(t[j - off]));
    }
    assert(crate::ids::hex_run(s, off, 8));
    assert forall|j: int| off + 9 <= j < off + 13 implies is_hex_digit(#[trigger] s[j]) by {
        assert(s[j] == t[j - off]);
        assert(is_hex_digit(t[j - off]));
    }
    assert(crate::ids::hex_run(s, off + 9, 4));
    assert forall|j: int| off + 14 <= j < off + 18 implies is_hex_digit(#[trigger] s[j]) by {
        assert(s[j] == t[j - off]);
        assert(is_hex_digit(t[j - off]));
    }
    assert(crate::ids::hex_run(s, off + 14, 4));
    assert forall|j: int| off + 19 <= j < off + 23 implies is_hex_digit(#[trigger] s[j]) by {
        assert(s[j] == t[j - off]);
        assert(is_hex_digit(t[j - off]));
    }
    assert(crate::ids::hex_run(s, off + 19, 4));
    assert forall|j: int| off + 24 <= j < off + 36 implies is_hex_digit(#[trigger] s[j]) by {
        assert(s[j] == t[j - off]);
        assert(is_hex_digit(t[j - off]));
    }
    assert(crate::ids::hex_run(s, off + 24, 12));
    assert(s.subrange(off + 0, off + 0 + 8) =~= t.subrange(0, 8));
    assert(s.subrange(off + 9, off + 9 + 4) =~= t.subrange(9, 13));
    assert(s.subrange(off + 14, off + 14 + 4) =~= t.subrange(14, 18));
    assert(s.subrange(off + 19, off + 19 + 4) =~= t.subrange(19, 23));
    assert(s.subrange(off + 24, off + 24 + 12) =~= t.subrange(24, 36));
}

/// Serializing access claims and parsing them back gives the claims.
pub proof fn lemma_access_json_round_trip(c: BudgetAccessTokenClaims)
    ensures
        spec_parse_access_json(spec_access_json(c)) == Some(c),
{
    let s = spec_access_json(c);
    let u1 = spec_uid_bytes(c.key_id);
    let u2 = spec_uid_bytes(c.budget_id);
    let d = spec_dec(c.expiration);
    lemma_uid_round_trip(c.key_id);
    lemma_uid_round_trip(c.budget_id);
    lemma_dec_round_trip(c.expiration);
    assert(d.len() >= 1);
    assert(s.len() == 114 + d.len());
    assert(s.subrange(0, 11) =~= lit_access_a());
    assert(s.subrange(11, 47) =~= u1);
    assert(s.subrange(47, 62) =~= lit_access_b());
    assert(s.subrange(62, 98) =~= u2);
    assert(s.subrange(98, 113) =~= lit_expiration());
    assert(s.subrange(113, s.len() - 1) =~= d);
    assert(s.last() == 125);
    lemma_parse_uid_shift(s, 11, c.key_id);
    lemma_parse_uid_shift(s, 62, c.budget_id);
}

/// Serializing accept claims and parsing them back gives the claims.
pub proof fn lemma_accept_json_round_trip(c: BudgetAcceptTokenClaims)
    ensures
        spec_parse_accept_json(spec_accept_json(c)) == Some(c),
{
    let s = spec_accept_json(c);
    let u1 = spec_uid_bytes(c.iid);
    let u2 = spec_uid_bytes(c.kid);
    let u3 = spec_uid_bytes(c.bid);
    let d = spec_dec(c.exp);
    lemma_uid_round_trip(c.iid);
    lemma_uid_round_trip(c.kid);
    lemma_uid_round_trip(c.bid);
    lemma_dec_round_trip(c.exp);
    assert(d.len() >= 1);
    assert(s.len() == 143 + d.len());
    assert(s.subrange(0, 8) =~= lit_accept_a());
    assert(s.subrange(8, 44) =~= u1);
    assert(s.subrange(44, 53) =~= lit_accept_b());
    assert(s.subrange(53, 89) =~= u2);
    assert(s.subrange(89, 98) =~= lit_accept_c());
    assert(s.subrange(98, 134) =~= u3);
    assert(s.subrange(134, 142) =~= lit_accept_d());
    assert(s.subrange(142, s.len() - 1) =~= d);
    assert(s.last() == 125);
    lemma_parse_uid_shift(s, 8, c.iid);
    lemma_parse_uid_shift(s, 53, c.kid);
    lemma_parse_uid_shift(s, 98, c.bid);
}

/// Serializing invite sender claims and parsing them back gives the claims.
pub proof fn lemma_invite_json_round_trip(c: BudgetInviteSenderTokenClaims)
    ensures
        spec_parse_invite_json(spec_invite_json(c)) == Some(c),
{
    let s = spec_invite_json(c);
    let u1 = spec_uid_bytes(c.invite_id);
    let d = spec_dec(c.expiration);
    lemma_uid_round_trip(c.invite_id);
    lemma_dec_round_trip(c.expiration);
    assert(d.len() >= 1);
    assert(s.len() == 66 + d.len());
    assert(s.subrange(0, 14) =~= lit_invite_a());
    assert(s.subrange(14, 50) =~= u1);
    assert(s.subrange(50, 65) =~= lit_expiration());
    assert(s.subrange(65, s.len() - 1) =~= d);
    assert(s.last() == 125);
    lemma_parse_uid_shift(s, 14, c.invite_id);
}

/// No byte of a canonical claims serialization is the `|` delimiter.
pub proof fn lemma_access_json_no_pipe(c: BudgetAccessTokenClaims)
    ensures
        forall|i: int|
            0 <= i < spec_access_json(c).len() ==> #[trigger] spec_access_json(c)[i] != 124,
{
    lemma_uid_no_pipe(c.key_id);
    lemma_uid_no_pipe(c.budget_id);
    lemma_dec_no_pipe(c.expiration);
}

/// No byte of a canonical accept claims serialization is the `|` delimiter.
pub proof fn lemma_accept_json_no_pipe(c: BudgetAcceptTokenClaims)
    ensures
        forall|i: int|
            0 <= i < spec_accept_json(c).len() ==> #[trigger] spec_accept_json(c)[i] != 124,
{
    lemma_uid_no_pipe(c.iid);
    lemma_uid_no_pipe(c.kid);
    lemma_uid_no_pipe(c.bid);
    lemma_dec_no_pipe(c.exp);
}

/// No byte of a canonical invite claims serialization is the `|` delimiter.
pub proof fn lemma_invite_json_no_pipe(c: BudgetInviteSenderTokenClaims)
    ensures
        forall|i: int|
            0 <= i < spec_invite_json(c).len() ==> #[trigger] spec_invite_json(c)[i] != 124,
{
    lemma_uid_no_pipe(c.invite_id);
    lemma_dec_no_pipe(c.expiration);
}

/// Identifier text is hex digits and hyphens, never `|`.
proof fn lemma_uid_no_pipe(u: Uid)
    ensures
        forall|i: int| 0 <= i < spec_uid_bytes(u).len() ==> #[trigger] spec_uid_bytes(u)[i] != 124,
{
    crate::ids::lemma_uid_round_trip(u);
    let s = spec_uid_bytes(u);
    assert forall|i: int| 0 <= i < s.len() implies #[trigger] s[i] != 124 by {
        if i == 8 || i == 13 || i == 18 || i == 23 {
            assert(s[i] == 45);
        } else {
            assert(is_hex_digit(s[i]));
        }
    }
}

/// Decimal text is digits, never `|`.
proof fn lemma_dec_no_pipe(n: u64)
    ensures
        forall|i: int| 0 <= i < spec_dec(n).len() ==> #[trigger] spec_dec(n)[i] != 124,
{
    lemma_dec_round_trip(n);
    let s = spec_dec(n);
    assert forall|i: int| 0 <= i < s.len() implies #[trigger] s[i] != 124 by {
        assert(is_dec_digit(s[i]));
    }
}

} // verus!
