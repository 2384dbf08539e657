//! The token codec and verifier.
//!
//! A token travels as `base64url( json(claims) | hex(signature) )`.  The
//! signature is Ed25519 over the exact bytes of the claims segment, and the
//! key it is checked against always comes from the key store, never from the
//! token itself.  `decode` splits and parses, `verify` checks expiration and
//! signature, and `sign` builds a token whose round trip is proved.

use vstd::prelude::*;

use crate::b64::{
    b64_decode, b64_encode, lemma_b64_encode_ascii, lemma_b64_round_trip, spec_b64_decode,
    spec_b64_encode,
};
use crate::bytes::subvec;
use crate::claims::{
    access_json, accept_json, invite_json, lemma_access_json_no_pipe, lemma_access_json_round_trip,
    lemma_accept_json_no_pipe, lemma_accept_json_round_trip, lemma_invite_json_no_pipe,
    lemma_invite_json_round_trip, parse_access_json, parse_accept_json, parse_invite_json,
    spec_access_json, spec_accept_json, spec_invite_json, spec_parse_access_json,
    spec_parse_accept_json, spec_parse_invite_json, BudgetAccessTokenClaims,
    BudgetAcceptTokenClaims, BudgetInviteSenderTokenClaims,
};
use crate::crypto::{
    ed25519_public_of, ed25519_sign, ed25519_signature, ed25519_valid, ed25519_verify,
};
use crate::hexcode::{
    hex_decode, hex_encode, is_hex_digit, lemma_hex_encode_digits, lemma_hex_round_trip,
    spec_hex_decode, spec_hex_encode,
};
use crate::strutil::ascii_to_string;
use vstd::string::StringSliceAdditionalSpecFns;
use vstd::string::StrSliceExecFns;

verus! {

/// Why a token was rejected.
#[derive(Clone, Copy, Debug, PartialEq, Eq, Structural)]
pub enum TokenError {
    /// The transport string is not a well-formed token.
    Malformed,
    /// The claims' expiration lies before the given moment.
    Expired,
    /// The signature does not validate over the claims segment.
    BadSignature,
}

/// The index of the last `|` byte, or -1 if there is none.
pub open spec fn spec_find_last_pipe(s: Seq<u8>) -> int
    decreases s.len(),
{
    if s.len() == 0 {
        -1
    } else if s.last() == 124 {
        s.len() - 1
    } else {
        spec_find_last_pipe(s.drop_last())
    }
}

/// The split of a token's base64 payload into claims bytes and signature
/// bytes: decode the base64 layer, split at the last `|`, hex-decode the
/// signature half.
pub open spec fn spec_token_parts(s: Seq<u8>) -> Option<(Seq<u8>, Seq<u8>)> {
    match spec_b64_decode(s) {
        None => None,
        Some(plain) => {
            let i = spec_find_last_pipe(plain);
            if i < 0 {
                None
            } else {
                match spec_hex_decode(plain.skip(i + 1)) {
                    None => None,
                    Some(sig) => Some((plain.take(i), sig)),
                }
            }
        },
    }
}

/// Where the last `|` can lie.
proof fn lemma_find_last_pipe_bounds(s: Seq<u8>)
    ensures
        -1 <= spec_find_last_pipe(s) < s.len(),
        spec_find_last_pipe(s) >= 0 ==> s[spec_find_last_pipe(s)] == 124,
    decreases s.len(),
{
    if s.len() > 0 && s.last() != 124 {
        lemma_find_last_pipe_bounds(s.drop_last());
    }
}

/// With no `|` in the tail, the last `|` of `a + "|" + t` closes `a`.
proof fn lemma_find_last_pipe_concat(a: Seq<u8>, t: Seq<u8>)
    requires
        forall|i: int| 0 <= i < t.len() ==> t[i] != 124,
    ensures
        spec_find_last_pipe(a + seq![124u8] + t) == a.len(),
    decreases t.len(),
{
    let s = a + seq![124u8] + t;
    if t.len() == 0 {
        assert(s.last() == 124);
    } else {
        assert(s.last() == t.last());
        assert(t.last() != 124);
        assert(s.drop_last() =~= a + seq![124u8] + t.drop_last());
        assert(forall|i: int| 0 <= i < t.drop_last().len() ==> #[trigger] t.drop_last()[i] != 124);
        lemma_find_last_pipe_concat(a, t.drop_last());
    }
}

/// Splitting a token built from claims bytes (holding no `|`) and a
/// signature gives both back.
proof fn lemma_token_parts_round_trip(cb: Seq<u8>, sig: Seq<u8>)
    requires
        forall|i: int| 0 <= i < cb.len() ==> cb[i] != 124,
    ensures
        spec_token_parts(spec_b64_encode(cb + seq![124u8] + spec_hex_encode(sig))) == Some(
            (cb, sig),
        ),
{
    let hexsig = spec_hex_encode(sig);
    let plain = cb + seq![124u8] + hexsig;
    lemma_hex_encode_digits(sig);
    assert(forall|i: int| 0 <= i < hexsig.len() ==> #[trigger] hexsig[i] != 124) by {
        assert(forall|i: int| 0 <= i < hexsig.len() ==> is_hex_digit(#[trigger] hexsig[i]));
    }
    lemma_b64_round_trip(plain);
    lemma_find_last_pipe_concat(cb, hexsig);
    assert(plain.take(cb.len() as int) =~= cb);
    assert(plain.skip(cb.len() as int + 1) =~= hexsig);
    lemma_hex_round_trip(sig);
}

/// The index of the last `|` byte in `v`.
fn find_last_pipe(v: &[u8]) -> (r: Option<usize>)
    ensures
        match r {
            Some(i) => spec_find_last_pipe(v@) == i,
            None => spec_find_last_pipe(v@) == -1,
        },
{
    let mut i: usize = v.len();
    assert(v@.take(v@.len() as int) =~= v@);
    while i > 0
        invariant
            i <= v@.len(),
            spec_find_last_pipe(v@) == spec_find_last_pipe(v@.take(i as int)),
        decreases i,
    {
        i -= 1;
        if v[i] == 124 {
            assert(v@.take(i + 1).last() == v@[i as int]);
            return Some(i);
        }
        assert(v@.take(i + 1).last() == v@[i as int]);
        assert(v@.take(i + 1).drop_last() =~= v@.take(i as int));
    }
    assert(v@.take(0) =~= Seq::<u8>::empty());
    None
}

/// Splits a transport string into claims bytes and signature bytes.
fn split_token(token: &str) -> (r: Option<(Vec<u8>, Vec<u8>)>)
    ensures
        match r {
            Some(parts) => spec_token_parts(token.spec_bytes()) == Some((parts.0@, parts.1@)),
            None => spec_token_parts(token.spec_bytes()) is None,
        },
{
    let bytes = token.as_bytes_vec();
    let plain = match b64_decode(bytes.as_slice()) {
        Some(p) => p,
        None => {
            return None;
        },
    };
    let i = match find_last_pipe(plain.as_slice()) {
        Some(i) => i,
        None => {
            return None;
        },
    };
    proof {
        lemma_find_last_pipe_bounds(plain@);
    }
    let cb = subvec(plain.as_slice(), 0, i);
    let sighex = subvec(plain.as_slice(), i + 1, plain.len());
    let sig = match hex_decode(sighex.as_slice()) {
        Some(s) => s,
        None => {
            assert(plain@.skip(i + 1) =~= sighex@);
            return None;
        },
    };
    assert(plain@.take(i as int) =~= cb@);
    assert(plain@.skip(i + 1) =~= sighex@);
    Some((cb, sig))
}

/// A decoded budget access token: claims, plus the exact claims bytes and
/// signature bytes the transport string carried.
#[derive(Debug)]
pub struct BudgetAccessToken {
    pub claims: BudgetAccessTokenClaims,
    pub claims_bytes: Vec<u8>,
    pub signature: Vec<u8>,
}

/// A decoded budget accept token.
#[derive(Debug)]
pub struct BudgetAcceptToken {
    pub claims: BudgetAcceptTokenClaims,
    pub claims_bytes: Vec<u8>,
    pub signature: Vec<u8>,
}

/// A decoded budget invite sender token.
#[derive(Debug)]
pub struct BudgetInviteSenderToken {
    pub claims: BudgetInviteSenderTokenClaims,
    pub claims_bytes: Vec<u8>,
    pub signature: Vec<u8>,
}

/// The outcome of checking claims with signature `sig` over bytes `cb`
/// against `key` at moment `now`: expiration first, then the signature.
pub open spec fn spec_verify_outcome<C>(
    claims: C,
    expiration: u64,
    cb: Seq<u8>,
    sig: Seq<u8>,
    key: Seq<u8>,
    now: u64,
) -> Result<C, TokenError> {
    if now > expiration {
        Err(TokenError::Expired)
    } else if ed25519_valid(key, cb, sig) {
        Ok(claims)
    } else {
        Err(TokenError::BadSignature)
    }
}

impl BudgetAccessToken {
    /// The signature bytes carried by the token.
    pub open spec fn spec_signature(&self) -> Seq<u8> {
        self.signature@
    }

    /// The exact claims bytes the signature covers.
    pub open spec fn spec_claims_bytes(&self) -> Seq<u8> {
        self.claims_bytes@
    }

    /// What decoding a transport string yields: claims, claims bytes,
    /// signature bytes.
    pub open spec fn spec_decode(s: Seq<u8>) -> Option<(BudgetAccessTokenClaims, Seq<u8>, Seq<u8>)> {
        match spec_token_parts(s) {
            None => None,
            Some(parts) => match spec_parse_access_json(parts.0) {
                None => None,
                Some(c) => Some((c, parts.0, parts.1)),
            },
        }
    }

    /// The name of this token kind.
    pub fn token_name() -> (r: &'static str)
        ensures
            r@ == "BudgetAccessToken"@,
    {
        "BudgetAccessToken"
    }

    /// Splits the transport string and parses the claims; `Malformed` when
    /// either step fails.
    pub fn decode(token: &str) -> (r: Result<Self, TokenError>)
        ensures
            match r {
                Ok(t) => Self::spec_decode(token.spec_bytes()) == Some(
                    (t.claims, t.spec_claims_bytes(), t.spec_signature()),
                ),
                Err(e) => e == TokenError::Malformed && Self::spec_decode(token.spec_bytes())
                    is None,
            },
    {
        let (claims_bytes, signature) = match split_token(token) {
            Some(p) => p,
            None => {
                return Err(TokenError::Malformed);
            },
        };
        let claims = match parse_access_json(claims_bytes.as_slice()) {
            Some(c) => c,
            None => {
                return Err(TokenError::Malformed);
            },
        };
        Ok(BudgetAccessToken { claims, claims_bytes, signature })
    }

    /// Checks expiration against `now`, then the signature against `key`
    /// over the exact claims bytes.  An expired token is rejected even when
    /// its signature is correct.
    pub fn verify(&self, key: &[u8], now: u64) -> (r: Result<BudgetAccessTokenClaims, TokenError>)
        ensures
            r == spec_verify_outcome(
                self.claims,
                self.claims.expiration,
                self.spec_claims_bytes(),
                self.spec_signature(),
                key@,
                now,
            ),
            now > self.claims.expiration <==> r == Err::<BudgetAccessTokenClaims, TokenError>(
                TokenError::Expired,
            ),
    {
        if now > self.claims.expiration {
            return Err(TokenError::Expired);
        }
        if ed25519_verify(key, self.claims_bytes.as_slice(), self.signature.as_slice()) {
            Ok(self.claims)
        } else {
            Err(TokenError::BadSignature)
        }
    }

    /// The transport bytes of a token signed with `sk`.
    pub open spec fn spec_signed_token(c: BudgetAccessTokenClaims, sk: Seq<u8>) -> Seq<u8> {
        spec_b64_encode(
            spec_access_json(c) + seq![124u8] + spec_hex_encode(
                ed25519_signature(sk, spec_access_json(c)),
            ),
        )
    }

    /// Serializes and signs claims.  Decoding the result gives the claims
    /// back, and verification against the signing key's public half
    /// succeeds at any moment at or before the expiration.
    pub fn sign(claims: &BudgetAccessTokenClaims, signing_key: &[u8]) -> (r: String)
        requires
            signing_key@.len() == 32,
        ensures
            vstd::utf8::encode_utf8(r@) == Self::spec_signed_token(*claims, signing_key@),
            Self::spec_decode(Self::spec_signed_token(*claims, signing_key@)) == Some(
                (
                    *claims,
                    spec_access_json(*claims),
                    ed25519_signature(signing_key@, spec_access_json(*claims)),
                ),
            ),
            forall|now: u64|
                now <= claims.expiration ==> spec_verify_outcome(
                    *claims,
                    claims.expiration,
                    spec_access_json(*claims),
                    ed25519_signature(signing_key@, spec_access_json(*claims)),
                    ed25519_public_of(signing_key@),
                    now,
                ) == Ok::<BudgetAccessTokenClaims, TokenError>(*claims),
    {
        let cb = access_json(claims);
        let sig = ed25519_sign(signing_key, cb.as_slice());
        let sighex = hex_encode(sig.as_slice());
        let mut plain = cb;
        plain.push(124);
        let mut sighex = sighex;
        plain.append(&mut sighex);
        assert(plain@ =~= spec_access_json(*claims) + seq![124u8] + spec_hex_encode(
            ed25519_signature(signing_key@, spec_access_json(*claims)),
        ));
        let token_bytes = b64_encode(plain.as_slice());
        proof {
            lemma_b64_encode_ascii(plain@);
            lemma_access_json_no_pipe(*claims);
            lemma_token_parts_round_trip(
                spec_access_json(*claims),
                ed25519_signature(signing_key@, spec_access_json(*claims)),
            );
            lemma_access_json_round_trip(*claims);
        }
        ascii_to_string(&token_bytes)
    }
}

impl BudgetAcceptToken {
    /// The signature bytes carried by the token.
    pub open spec fn spec_signature(&self) -> Seq<u8> {
        self.signature@
    }

    /// The exact claims bytes the signature covers.
    pub open spec fn spec_claims_bytes(&self) -> Seq<u8> {
        self.claims_bytes@
    }

    /// What decoding a transport string yields.
    pub open spec fn spec_decode(s: Seq<u8>) -> Option<(BudgetAcceptTokenClaims, Seq<u8>, Seq<u8>)> {
        match spec_token_parts(s) {
            None => None,
            Some(parts) => match spec_parse_accept_json(parts.0) {
                None => None,
                Some(c) => Some((c, parts.0, parts.1)),
            },
        }
    }

    /// The name of this token kind.
    pub fn token_name() -> (r: &'static str)
        ensures
            r@ == "BudgetAcceptToken"@,
    {
        "BudgetAcceptToken"
    }

    /// Splits the transport string and parses the claims; `Malformed` when
    /// either step fails.
    pub fn decode(token: &str) -> (r: Result<Self, TokenError>)
        ensures
            match r {
                Ok(t) => Self::spec_decode(token.spec_bytes()) == Some(
                    (t.claims, t.spec_claims_bytes(), t.spec_signature()),
                ),
                Err(e) => e == TokenError::Malformed && Self::spec_decode(token.spec_bytes())
                    is None,
            },
    {
        let (claims_bytes, signature) = match split_token(token) {
            Some(p) => p,
            None => {
                return Err(TokenError::Malformed);
            },
        };
        let claims = match parse_accept_json(claims_bytes.as_slice()) {
            Some(c) => c,
            None => {
                return Err(TokenError::Malformed);
            },
        };
        Ok(BudgetAcceptToken { claims, claims_bytes, signature })
    }

    /// Checks expiration against `now`, then the signature against `key`.
    pub fn verify(&self, key: &[u8], now: u64) -> (r: Result<BudgetAcceptTokenClaims, TokenError>)
        ensures
            r == spec_verify_outcome(
                self.claims,
                self.claims.exp,
                self.spec_claims_bytes(),
                self.spec_signature(),
                key@,
                now,
            ),
            now > self.claims.exp <==> r == Err::<BudgetAcceptTokenClaims, TokenError>(
                TokenError::Expired,
            ),
    {
        if now > self.claims.exp {
            return Err(TokenError::Expired);
        }
        if ed25519_verify(key, self.claims_bytes.as_slice(), self.signature.as_slice()) {
            Ok(self.claims)
        } else {
            Err(TokenError::BadSignature)
        }
    }

    /// The transport bytes of a token signed with `sk`.
    pub open spec fn spec_signed_token(c: BudgetAcceptTokenClaims, sk: Seq<u8>) -> Seq<u8> {
        spec_b64_encode(
            spec_accept_json(c) + seq![124u8] + spec_hex_encode(
                ed25519_signature(sk, spec_accept_json(c)),
            ),
        )
    }

    /// Serializes and signs claims; the round trip is as for access tokens.
    pub fn sign(claims: &BudgetAcceptTokenClaims, signing_key: &[u8]) -> (r: String)
        requires
            signing_key@.len() == 32,
        ensures
            vstd::utf8::encode_utf8(r@) == Self::spec_signed_token(*claims, signing_key@),
            Self::spec_decode(Self::spec_signed_token(*claims, signing_key@)) == Some(
                (
                    *claims,
                    spec_accept_json(*claims),
                    ed25519_signature(signing_key@, spec_accept_json(*claims)),
                ),
            ),
            forall|now: u64|
                now <= claims.exp ==> spec_verify_outcome(
                    *claims,
                    claims.exp,
                    spec_accept_json(*claims),
                    ed25519_signature(signing_key@, spec_accept_json(*claims)),
                    ed25519_public_of(signing_key@),
                    now,
                ) == Ok::<BudgetAcceptTokenClaims, TokenError>(*claims),
    {
        let cb = accept_json(claims);
        let sig = ed25519_sign(signing_key, cb.as_slice());
        let sighex = hex_encode(sig.as_slice());
        let mut plain = cb;
        plain.push(124);
        let mut sighex = sighex;
        plain.append(&mut sighex);
        assert(plain@ =~= spec_accept_json(*claims) + seq![124u8] + spec_hex_encode(
            ed25519_signature(signing_key@, spec_accept_json(*claims)),
        ));
        let token_bytes = b64_encode(plain.as_slice());
        proof {
            lemma_b64_encode_ascii(plain@);
            lemma_accept_json_no_pipe(*claims);
            lemma_token_parts_round_trip(
                spec_accept_json(*claims),
                ed25519_signature(signing_key@, spec_accept_json(*claims)),
            );
            lemma_accept_json_round_trip(*claims);
        }
        ascii_to_string(&token_bytes)
    }
}

impl BudgetInviteSenderToken {
    /// The signature bytes carried by the token.
    pub open spec fn spec_signature(&self) -> Seq<u8> {
        self.signature@
    }

    /// The exact claims bytes the signature covers.
    pub open spec fn spec_claims_bytes(&self) -> Seq<u8> {
        self.claims_bytes@
    }

    /// What decoding a transport string yields.
    pub open spec fn spec_decode(s: Seq<u8>) -> Option<
        (BudgetInviteSenderTokenClaims, Seq<u8>, Seq<u8>),
    > {
        match spec_token_parts(s) {
            None => None,
            Some(parts) => match spec_parse_invite_json(parts.0) {
                None => None,
                Some(c) => Some((c, parts.0, parts.1)),
            },
        }
    }

    /// The name of this token kind.
    pub fn token_name() -> (r: &'static str)
        ensures
            r@ == "BudgetInviteSenderToken"@,
    {
        "BudgetInviteSenderToken"
    }

    /// Splits the transport string and parses the claims; `Malformed` when
    /// either step fails.
    pub fn decode(token: &str) -> (r: Result<Self, TokenError>)
        ensures
            match r {
                Ok(t) => Self::spec_decode(token.spec_bytes()) == Some(
                    (t.claims, t.spec_claims_bytes(), t.spec_signature()),
                ),
                Err(e) => e == TokenError::Malformed && Self::spec_decode(token.spec_bytes())
                    is None,
            },
    {
        let (claims_bytes, signature) = match split_token(token) {
            Some(p) => p,
            None => {
                return Err(TokenError::Malformed);
            },
        };
        let claims = match parse_invite_json(claims_bytes.as_slice()) {
            Some(c) => c,
            None => {
                return Err(TokenError::Malformed);
            },
        };
        Ok(BudgetInviteSenderToken { claims, claims_bytes, signature })
    }

    /// Checks expiration against `now`, then the signature against `key`.
    pub fn verify(&self, key: &[u8], now: u64) -> (r: Result<
        BudgetInviteSenderTokenClaims,
        TokenError,
    >)
        ensures
            r == spec_verify_outcome(
                self.claims,
                self.claims.expiration,
                self.spec_claims_bytes(),
                self.spec_signature(),
                key@,
                now,
            ),
            now > self.claims.expiration <==> r == Err::<
                BudgetInviteSenderTokenClaims,
                TokenError,
            >(TokenError::Expired),
    {
        if now > self.claims.expiration {
            return Err(TokenError::Expired);
        }
        if ed25519_verify(key, self.claims_bytes.as_slice(), self.signature.as_slice()) {
            Ok(self.claims)
        } else {
            Err(TokenError::BadSignature)
        }
    }

    /// The transport bytes of a token signed with `sk`.
    pub open spec fn spec_signed_token(c: BudgetInviteSenderTokenClaims, sk: Seq<u8>) -> Seq<u8> {
        spec_b64_encode(
            spec_invite_json(c) + seq![124u8] + spec_hex_encode(
                ed25519_signature(sk, spec_invite_json(c)),
            ),
        )
    }

    /// Serializes and signs claims; the round trip is as for access tokens.
    pub fn sign(claims: &BudgetInviteSenderTokenClaims, signing_key: &[u8]) -> (r: String)
        requires
            signing_key@.len() == 32,
        ensures
            vstd::utf8::encode_utf8(r@) == Self::spec_signed_token(*claims, signing_key@),
            Self::spec_decode(Self::spec_signed_token(*claims, signing_key@)) == Some(
                (
                    *claims,
                    spec_invite_json(*claims),
                    ed25519_signature(signing_key@, spec_invite_json(*claims)),
                ),
            ),
            forall|now: u64|
                now <= claims.expiration ==> spec_verify_outcome(
                    *claims,
                    claims.expiration,
                    spec_invite_json(*claims),
                    ed25519_signature(signing_key@, spec_invite_json(*claims)),
                    ed25519_public_of(signing_key@),
                    now,
                ) == Ok::<BudgetInviteSenderTokenClaims, TokenError>(*claims),
    {
        let cb = invite_json(claims);
        let sig = ed25519_sign(signing_key, cb.as_slice());
        let sighex = hex_encode(sig.as_slice());
        let mut plain = cb;
        plain.push(124);
        let mut sighex = sighex;
        plain.append(&mut sighex);
        assert(plain@ =~= spec_invite_json(*claims) + seq![124u8] + spec_hex_encode(
            ed25519_signature(signing_key@, spec_invite_json(*claims)),
        ));
        let token_bytes = b64_encode(plain.as_slice());
        proof {
            lemma_b64_encode_ascii(plain@);
            lemma_invite_json_no_pipe(*claims);
            lemma_token_parts_round_trip(
                spec_invite_json(*claims),
                ed25519_signature(signing_key@, spec_invite_json(*claims)),
            );
            lemma_invite_json_round_trip(*claims);
        }
        ascii_to_string(&token_bytes)
    }
}

} // verus!
