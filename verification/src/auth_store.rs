//! The authentication store: sign-in nonces (read-and-rotate), one-time
//! codes (one active per account), and the token blacklist.

use vstd::prelude::*;

use crate::bytes::{bytes_eq, clone_bytes};
use crate::crypto::random_i32;
use crate::errors::DaoError;
use crate::ids::Uid;
use crate::strutil::str_eq;

verus! {

/// A user's row as the authentication path sees it.
#[derive(Debug)]
pub struct AuthUser {
    pub user_id: Uid,
    pub email: String,
    pub is_verified: bool,
    pub auth_string_hash: String,
    pub auth_string_salt: Vec<u8>,
    pub auth_string_memory_cost_kib: i32,
    pub auth_string_parallelism_factor: i32,
    pub auth_string_iters: i32,
}

/// A sign-in nonce row: one per account, rotated on every read.
#[derive(Debug)]
pub struct SigninNonce {
    pub user_email: String,
    pub nonce: i32,
}

/// The view of a sign-in nonce row.
pub ghost struct NonceView {
    pub user_email: Seq<char>,
    pub nonce: i32,
}

impl View for SigninNonce {
    type V = NonceView;

    open spec fn view(&self) -> NonceView {
        NonceView { user_email: self.user_email@, nonce: self.nonce }
    }
}

/// A one-time code row: at most one active code per account.
#[derive(Debug)]
pub struct UserOtp {
    pub user_id: Uid,
    pub otp: String,
    pub expiration: u64,
}

/// The view of a one-time code row.
pub ghost struct OtpView {
    pub user_id: Uid,
    pub otp: Seq<char>,
    pub expiration: u64,
}

impl View for UserOtp {
    type V = OtpView;

    open spec fn view(&self) -> OtpView {
        OtpView { user_id: self.user_id, otp: self.otp@, expiration: self.expiration }
    }
}

/// A blacklisted token signature, kept until the token would have expired
/// anyway.
#[derive(Debug)]
pub struct BlacklistedToken {
    pub token_signature: Vec<u8>,
    pub token_expiration: u64,
}

/// The view of a blacklist row.
pub ghost struct BlacklistView {
    pub token_signature: Seq<u8>,
    pub token_expiration: u64,
}

impl View for BlacklistedToken {
    type V = BlacklistView;

    open spec fn view(&self) -> BlacklistView {
        BlacklistView {
            token_signature: self.token_signature@,
            token_expiration: self.token_expiration,
        }
    }
}

/// What a sign-in attempt needs: the password-hash parameters and the
/// current nonce.
#[derive(Debug)]
pub struct OutputSigninNonceAndHashParams {
    pub auth_string_salt: Vec<u8>,
    pub auth_string_memory_cost_kib: i32,
    pub auth_string_parallelism_factor: i32,
    pub auth_string_iters: i32,
    pub nonce: i32,
}

/// A user's password hash together with the account status.
#[derive(Debug)]
pub struct UserAuthStringHashAndStatus {
    pub user_id: Uid,
    pub is_user_verified: bool,
    pub auth_string_hash: String,
}

/// Is some user row keyed by this email?
pub open spec fn has_auth_user(s: Seq<AuthUser>, email: Seq<char>) -> bool {
    exists|i: int| 0 <= i < s.len() && (#[trigger] s[i]).email@ == email
}

/// The index of the user row keyed by this email.
pub open spec fn auth_user_at(s: Seq<AuthUser>, email: Seq<char>) -> int {
    choose|i: int| 0 <= i < s.len() && (#[trigger] s[i]).email@ == email
}

/// Is some nonce row keyed by this email?
pub open spec fn has_nonce(s: Seq<NonceView>, email: Seq<char>) -> bool {
    exists|i: int| 0 <= i < s.len() && (#[trigger] s[i]).user_email == email
}

/// The index of the nonce row keyed by this email.
pub open spec fn nonce_at(s: Seq<NonceView>, email: Seq<char>) -> int {
    choose|i: int| 0 <= i < s.len() && (#[trigger] s[i]).user_email == email
}

/// Is some one-time-code row keyed by this user?
pub open spec fn has_otp(s: Seq<UserOtp>, user_id: Uid) -> bool {
    exists|i: int| 0 <= i < s.len() && (#[trigger] s[i]).user_id == user_id
}

/// The index of the one-time-code row keyed by this user.
pub open spec fn otp_at(s: Seq<UserOtp>, user_id: Uid) -> int {
    choose|i: int| 0 <= i < s.len() && (#[trigger] s[i]).user_id == user_id
}

/// Is some blacklist row keyed by this signature?
pub open spec fn has_blacklisted(s: Seq<BlacklistedToken>, sig: Seq<u8>) -> bool {
    exists|i: int| 0 <= i < s.len() && (#[trigger] s[i]).token_signature@ == sig
}

/// One user row per email.
pub open spec fn unique_user_emails(s: Seq<AuthUser>) -> bool {
    forall|i: int, j: int|
        0 <= i < j < s.len() ==> (#[trigger] s[i]).email@ != (#[trigger] s[j]).email@
}

/// One nonce row per email.
pub open spec fn unique_nonce_emails(s: Seq<NonceView>) -> bool {
    forall|i: int, j: int|
        0 <= i < j < s.len() ==> (#[trigger] s[i]).user_email != (#[trigger] s[j]).user_email
}

/// One code row per user.
pub open spec fn unique_otp_users(s: Seq<UserOtp>) -> bool {
    forall|i: int, j: int|
        0 <= i < j < s.len() ==> (#[trigger] s[i]).user_id != (#[trigger] s[j]).user_id
}

/// One blacklist row per signature.
pub open spec fn unique_blacklist_signatures(s: Seq<BlacklistedToken>) -> bool {
    forall|i: int, j: int|
        0 <= i < j < s.len() ==> (#[trigger] s[i]).token_signature@ != (
        #[trigger] s[j]).token_signature@
}

/// The rows kept by an expired-code sweep at `now`.
pub open spec fn spec_unexpired_otps(s: Seq<OtpView>, now: u64) -> Seq<OtpView>
    decreases s.len(),
{
    if s.len() == 0 {
        Seq::empty()
    } else if s.first().expiration >= now {
        seq![s.first()] + spec_unexpired_otps(s.drop_first(), now)
    } else {
        spec_unexpired_otps(s.drop_first(), now)
    }
}

/// The rows kept by an expired-token sweep at `now`.
pub open spec fn spec_unexpired_blacklist(s: Seq<BlacklistView>, now: u64) -> Seq<BlacklistView>
    decreases s.len(),
{
    if s.len() == 0 {
        Seq::empty()
    } else if s.first().token_expiration >= now {
        seq![s.first()] + spec_unexpired_blacklist(s.drop_first(), now)
    } else {
        spec_unexpired_blacklist(s.drop_first(), now)
    }
}

/// The read-and-rotate transition on the nonce table: the current value is
/// handed out exactly once, and the row atomically takes the fresh value,
/// so no later reader can observe the value again.
pub open spec fn spec_rotate_nonce(v: Seq<NonceView>, email: Seq<char>, fresh: i32) -> (
    Seq<NonceView>,
    Result<i32, DaoError>,
) {
    if !has_nonce(v, email) {
        (v, Err(DaoError::NotFound))
    } else {
        let i = nonce_at(v, email);
        (v.update(i, NonceView { user_email: email, nonce: fresh }), Ok(v[i].nonce))
    }
}

/// The authentication store.
pub struct Dao {
    pub users: Vec<AuthUser>,
    pub signin_nonces: Vec<SigninNonce>,
    pub user_otps: Vec<UserOtp>,
    pub blacklisted_tokens: Vec<BlacklistedToken>,
}

impl Dao {
    /// The nonce table, as a value.
    pub open spec fn nonces(&self) -> Seq<NonceView> {
        self.signin_nonces@.map_values(|n: SigninNonce| n@)
    }

    /// The one-time-code table, as a value.
    pub open spec fn otps(&self) -> Seq<OtpView> {
        self.user_otps@.map_values(|o: UserOtp| o@)
    }

    /// The blacklist table, as a value.
    pub open spec fn blacklist(&self) -> Seq<BlacklistView> {
        self.blacklisted_tokens@.map_values(|b: BlacklistedToken| b@)
    }

    /// Well-formedness: one row per key in each table.
    pub open spec fn wf(&self) -> bool {
        &&& unique_user_emails(self.users@)
        &&& unique_nonce_emails(self.nonces())
        &&& unique_otp_users(self.user_otps@)
        &&& unique_blacklist_signatures(self.blacklisted_tokens@)
    }

    /// An empty store.
    pub fn new() -> (r: Dao)
        ensures
            r.users@.len() == 0,
            r.signin_nonces@.len() == 0,
            r.user_otps@.len() == 0,
            r.blacklisted_tokens@.len() == 0,
            r.wf(),
    {
        Dao {
            users: Vec::new(),
            signin_nonces: Vec::new(),
            user_otps: Vec::new(),
            blacklisted_tokens: Vec::new(),
        }
    }

    /// The password hash and status for an account.  An unverified account
    /// yields an empty hash; a verified account with no stored hash is
    /// treated as absent.
    #[verifier::loop_isolation(false)]
    #[verifier::rlimit(60)]
    pub fn get_user_auth_string_hash_and_status(&mut self, user_email: &str) -> (r: Result<
        UserAuthStringHashAndStatus,
        DaoError,
    >)
        requires
            old(self).wf(),
        ensures
            *final(self) == *old(self),
            match r {
                Ok(h) => {
                    let i = auth_user_at(old(self).users@, user_email@);
                    &&& has_auth_user(old(self).users@, user_email@)
                    &&& h.user_id == old(self).users@[i].user_id
                    &&& h.is_user_verified == old(self).users@[i].is_verified
                    &&& (old(self).users@[i].is_verified ==> h.auth_string_hash@ == old(self).users@[i].auth_string_hash@ && h.auth_string_hash@.len() > 0)
                    &&& (!old(self).users@[i].is_verified ==> h.auth_string_hash@.len() == 0)
                },
                Err(e) => e == DaoError::NotFound && (!has_auth_user(old(self).users@, user_email@)
                    || (old(self).users@[auth_user_at(old(self).users@, user_email@)].is_verified
                    && old(self).users@[auth_user_at(
                    old(self).users@,
                    user_email@,
                )].auth_string_hash@.len() == 0)),
            },
    {
        let n = self.users.len();
        let mut i: usize = 0;
        while i < n
            invariant
                n == self.users@.len(),
                i <= n,
                forall|j: int| 0 <= j < i ==> (#[trigger] self.users@[j]).email@ != user_email@,
            decreases n - i,
        {
            if str_eq(self.users[i].email.as_str(), user_email) {
                proof {
                    lemma_auth_user_at_unique(self.users@, user_email@, i as int);
                }
                if !self.users[i].is_verified {
                    return Ok(
                        UserAuthStringHashAndStatus {
                            user_id: self.users[i].user_id,
                            is_user_verified: false,
                            auth_string_hash: String::new(),
                        },
                    );
                }
                if self.users[i].auth_string_hash.as_str().is_empty() {
                    return Err(DaoError::NotFound);
                }
                return Ok(
                    UserAuthStringHashAndStatus {
                        user_id: self.users[i].user_id,
                        is_user_verified: true,
                        auth_string_hash: self.users[i].auth_string_hash.clone(),
                    },
                );
            }
            i += 1;
        }
        assert(!has_auth_user(self.users@, user_email@));
        Err(DaoError::NotFound)
    }

    /// Blacklists a token signature until the token's own expiration.
    #[verifier::loop_isolation(false)]
    #[verifier::rlimit(60)]
    pub fn blacklist_token(&mut self, token_signature: &[u8], token_expiration: u64) -> (r: Result<
        (),
        DaoError,
    >)
        requires
            old(self).wf(),
        ensures
            final(self).wf(),
            final(self).users == old(self).users,
            final(self).signin_nonces == old(self).signin_nonces,
            final(self).user_otps == old(self).user_otps,
            match r {
                Ok(_) => {
                    let prev = old(self).blacklisted_tokens@;
                    &&& !has_blacklisted(prev, token_signature@)
                    &&& final(self).blacklisted_tokens@.len() == prev.len() + 1
                    &&& (forall|j: int|
                        0 <= j < prev.len() ==> #[trigger] final(self).blacklisted_tokens@[j]
                            == prev[j])
                    &&& final(self).blacklisted_tokens@[prev.len() as int].token_signature@
                        == token_signature@
                    &&& final(self).blacklisted_tokens@[prev.len() as int].token_expiration
                        == token_expiration
                },
                Err(e) => e == DaoError::UniquenessViolation && has_blacklisted(
                    old(self).blacklisted_tokens@,
                    token_signature@,
                ) && *final(self) == *old(self),
            },
    {
        let n = self.blacklisted_tokens.len();
        let mut i: usize = 0;
        while i < n
            invariant
                n == self.blacklisted_tokens@.len(),
                i <= n,
                forall|j: int|
                    0 <= j < i ==> (#[trigger] self.blacklisted_tokens@[j]).token_signature@
                        != token_signature@,
            decreases n - i,
        {
            if bytes_eq(self.blacklisted_tokens[i].token_signature.as_slice(), token_signature) {
                return Err(DaoError::UniquenessViolation);
            }
            i += 1;
        }
        assert(!has_blacklisted(self.blacklisted_tokens@, token_signature@));
        let ghost bl0 = old(self).blacklisted_tokens@;
        self.blacklisted_tokens.push(
            BlacklistedToken {
                token_signature: crate::bytes::subvec(token_signature, 0, token_signature.len()),
                token_expiration,
            },
        );
        proof {
            assert(token_signature@.subrange(0, token_signature@.len() as int)
                =~= token_signature@);
            assert forall|a: int, b: int|
                0 <= a < b < self.blacklisted_tokens@.len() implies (
            #[trigger] self.blacklisted_tokens@[a]).token_signature@ != (
            #[trigger] self.blacklisted_tokens@[b]).token_signature@ by {
                assert(self.blacklisted_tokens@[a] == bl0[a]);
                if b == bl0.len() {
                    assert(self.blacklisted_tokens@[b].token_signature@ == token_signature@);
                } else {
                    assert(self.blacklisted_tokens@[b] == bl0[b]);
                }
            }
        }
        Ok(())
    }

    /// Answers whether the signature is already blacklisted and, when it is
    /// not, blacklists it in the same step.
    #[verifier::loop_isolation(false)]
    #[verifier::rlimit(60)]
    pub fn check_is_token_on_blacklist_and_blacklist(
        &mut self,
        token_signature: &[u8],
        token_expiration: u64,
    ) -> (r: Result<bool, DaoError>)
        requires
            old(self).wf(),
        ensures
            final(self).wf(),
            match r {
                Ok(found) => {
                    &&& found == has_blacklisted(old(self).blacklisted_tokens@, token_signature@)
                    &&& (found ==> *final(self) == *old(self))
                    &&& (!found ==> final(self).blacklist() == old(self).blacklist().push(
                        BlacklistView { token_signature: token_signature@, token_expiration },
                    ))
                    &&& final(self).users == old(self).users
                    &&& final(self).signin_nonces == old(self).signin_nonces
                    &&& final(self).user_otps == old(self).user_otps
                },
                Err(_) => false,
            },
    {
        let n = self.blacklisted_tokens.len();
        let mut i: usize = 0;
        while i < n
            invariant
                n == self.blacklisted_tokens@.len(),
                i <= n,
                forall|j: int|
                    0 <= j < i ==> (#[trigger] self.blacklisted_tokens@[j]).token_signature@
                        != token_signature@,
            decreases n - i,
        {
            if bytes_eq(self.blacklisted_tokens[i].token_signature.as_slice(), token_signature) {
                assert(has_blacklisted(self.blacklisted_tokens@, token_signature@));
                return Ok(true);
            }
            i += 1;
        }
        assert(!has_blacklisted(self.blacklisted_tokens@, token_signature@));
        match self.blacklist_token(token_signature, token_expiration) {
            Ok(_) => {
                proof {
                    assert(self.blacklist() =~= old(self).blacklist().push(
                        BlacklistView { token_signature: token_signature@, token_expiration },
                    ));
                }
                Ok(false)
            },
            Err(e) => Err(e),
        }
    }

    /// The active one-time code for a user, or `NotFound`.
    #[verifier::loop_isolation(false)]
    #[verifier::rlimit(60)]
    pub fn get_otp(&mut self, user_id: Uid) -> (r: Result<UserOtp, DaoError>)
        requires
            old(self).wf(),
        ensures
            *final(self) == *old(self),
            match r {
                Ok(o) => has_otp(old(self).user_otps@, user_id) && o.user_id == user_id && o.otp@
                    == old(self).user_otps@[otp_at(old(self).user_otps@, user_id)].otp@
                    && o.expiration == old(self).user_otps@[otp_at(
                    old(self).user_otps@,
                    user_id,
                )].expiration,
                Err(e) => e == DaoError::NotFound && !has_otp(old(self).user_otps@, user_id),
            },
    {
        let n = self.user_otps.len();
        let mut i: usize = 0;
        while i < n
            invariant
                n == self.user_otps@.len(),
                i <= n,
                forall|j: int| 0 <= j < i ==> (#[trigger] self.user_otps@[j]).user_id != user_id,
            decreases n - i,
        {
            if self.user_otps[i].user_id == user_id {
                proof {
                    lemma_otp_at_unique(self.user_otps@, user_id, i as int);
                }
                return Ok(
                    UserOtp {
                        user_id,
                        otp: self.user_otps[i].otp.clone(),
                        expiration: self.user_otps[i].expiration,
                    },
                );
            }
            i += 1;
        }
        assert(!has_otp(self.user_otps@, user_id));
        Err(DaoError::NotFound)
    }

    /// Saves a one-time code with upsert semantics: issuing a new code
    /// replaces any prior unconsumed one, so one code is active per user.
    #[verifier::loop_isolation(false)]
    #[verifier::rlimit(60)]
    pub fn save_otp(&mut self, otp: &str, user_id: Uid, expiration: u64) -> (r: Result<
        (),
        DaoError,
    >)
        requires
            old(self).wf(),
        ensures
            final(self).wf(),
            final(self).users == old(self).users,
            final(self).signin_nonces == old(self).signin_nonces,
            final(self).blacklisted_tokens == old(self).blacklisted_tokens,
            r is Ok,
            has_otp(final(self).user_otps@, user_id),
            has_otp(old(self).user_otps@, user_id) ==> final(self).otps() == old(
                self,
            ).otps().update(
                otp_at(old(self).user_otps@, user_id),
                OtpView { user_id, otp: otp@, expiration },
            ),
            !has_otp(old(self).user_otps@, user_id) ==> final(self).otps() == old(
                self,
            ).otps().push(OtpView { user_id, otp: otp@, expiration }),
    {
        let n = self.user_otps.len();
        let mut i: usize = 0;
        while i < n
            invariant
                *self == *old(self),
                n == self.user_otps@.len(),
                i <= n,
                forall|j: int| 0 <= j < i ==> (#[trigger] self.user_otps@[j]).user_id != user_id,
            decreases n - i,
        {
            if self.user_otps[i].user_id == user_id {
                proof {
                    lemma_otp_at_unique(old(self).user_otps@, user_id, i as int);
                }
                let mut row = self.user_otps.remove(i);
                row.otp = otp.to_owned();
                row.expiration = expiration;
                let ghost rowv = row;
                self.user_otps.insert(i, row);
                proof {
                    assert(self.user_otps@ =~= old(self).user_otps@.update(i as int, rowv));
                    assert forall|a: int, b: int| 0 <= a < b < self.user_otps@.len() implies (
                    #[trigger] self.user_otps@[a]).user_id != (
                    #[trigger] self.user_otps@[b]).user_id by {
                        assert(self.user_otps@[a] == if a == i {
                            rowv
                        } else {
                            old(self).user_otps@[a]
                        });
                        assert(self.user_otps@[b] == if b == i {
                            rowv
                        } else {
                            old(self).user_otps@[b]
                        });
                        assert(old(self).user_otps@[i as int].user_id == user_id);
                    }
                    lemma_otp_at_unique(self.user_otps@, user_id, i as int);
                }
                return Ok(());
            }
            i += 1;
        }
        assert(!has_otp(self.user_otps@, user_id));
        self.user_otps.push(UserOtp { user_id, otp: otp.to_owned(), expiration });
        proof {
            let o0 = old(self).user_otps@;
            assert forall|a: int, b: int| 0 <= a < b < self.user_otps@.len() implies (
            #[trigger] self.user_otps@[a]).user_id != (#[trigger] self.user_otps@[b]).user_id by {
                assert(self.user_otps@[a] == o0[a]);
                if b == o0.len() {
                    assert(self.user_otps@[b].user_id == user_id);
                } else {
                    assert(self.user_otps@[b] == o0[b]);
                }
            }
            assert(unique_otp_users(self.user_otps@));
            lemma_otp_at_unique(self.user_otps@, user_id, o0.len() as int);
        }
        Ok(())
    }

    /// Deletes a user's one-time code (consuming it after successful use).
    #[verifier::loop_isolation(false)]
    #[verifier::rlimit(60)]
    pub fn delete_otp(&mut self, user_id: Uid) -> (r: Result<(), DaoError>)
        requires
            old(self).wf(),
        ensures
            final(self).wf(),
            final(self).users == old(self).users,
            final(self).signin_nonces == old(self).signin_nonces,
            final(self).blacklisted_tokens == old(self).blacklisted_tokens,
            r is Ok,
            !has_otp(final(self).user_otps@, user_id),
            has_otp(old(self).user_otps@, user_id) ==> final(self).user_otps@ == old(self).user_otps@.remove(otp_at(old(self).user_otps@, user_id)),
            !has_otp(old(self).user_otps@, user_id) ==> final(self).user_otps@ == old(self).user_otps@,
    {
        let n = self.user_otps.len();
        let mut i: usize = 0;
        while i < n
            invariant
                *self == *old(self),
                n == self.user_otps@.len(),
                i <= n,
                forall|j: int| 0 <= j < i ==> (#[trigger] self.user_otps@[j]).user_id != user_id,
            decreases n - i,
        {
            if self.user_otps[i].user_id == user_id {
                let _ = self.user_otps.remove(i);
                proof {
                    let o0 = old(self).user_otps@;
                    assert(self.user_otps@ =~= o0.remove(i as int));
                    assert(o0[i as int].user_id == user_id);
                    assert forall|a: int| 0 <= a < self.user_otps@.len() implies (
                    #[trigger] self.user_otps@[a]).user_id != user_id by {
                        if a < i {
                            assert(self.user_otps@[a] == o0[a]);
                        } else {
                            assert(self.user_otps@[a] == o0[a + 1]);
                            assert(o0[i as int].user_id != o0[a + 1].user_id);
                        }
                    }
                    assert forall|a: int, b: int| 0 <= a < b < self.user_otps@.len() implies (
                    #[trigger] self.user_otps@[a]).user_id != (
                    #[trigger] self.user_otps@[b]).user_id by {
                        assert(self.user_otps@[a] == if a < i {
                            o0[a]
                        } else {
                            o0[a + 1]
                        });
                        assert(self.user_otps@[b] == if b < i {
                            o0[b]
                        } else {
                            o0[b + 1]
                        });
                    }
                    lemma_otp_at_unique(o0, user_id, i as int);
                }
                return Ok(());
            }
            i += 1;
        }
        assert(!has_otp(self.user_otps@, user_id));
        Ok(())
    }

    /// Sweeps every one-time code whose expiration lies before `now`.
    #[verifier::loop_isolation(false)]
    #[verifier::rlimit(60)]
    pub fn delete_all_expired_otps(&mut self, now: u64) -> (r: Result<(), DaoError>)
        requires
            old(self).wf(),
        ensures
            final(self).wf(),
            final(self).users == old(self).users,
            final(self).signin_nonces == old(self).signin_nonces,
            final(self).blacklisted_tokens == old(self).blacklisted_tokens,
            r is Ok,
            final(self).otps() == spec_unexpired_otps(old(self).otps(), now),
    {
        let n = self.user_otps.len();
        let mut kept: Vec<UserOtp> = Vec::new();
        let mut i: usize = 0;
        assert(self.otps().skip(0) == self.otps());
        while i < n
            invariant
                n == self.user_otps@.len(),
                i <= n,
                self.user_otps@ == old(self).user_otps@,
                self.users@ == old(self).users@,
                self.signin_nonces@ == old(self).signin_nonces@,
                self.blacklisted_tokens@ == old(self).blacklisted_tokens@,
                spec_unexpired_otps(self.otps(), now) =~= kept@.map_values(|o: UserOtp| o@)
                    + spec_unexpired_otps(self.otps().skip(i as int), now),
            decreases n - i,
        {
            assert(self.otps().skip(i as int).first() == self.otps()[i as int]);
            if self.user_otps[i].expiration >= now {
                kept.push(
                    UserOtp {
                        user_id: self.user_otps[i].user_id,
                        otp: self.user_otps[i].otp.clone(),
                        expiration: self.user_otps[i].expiration,
                    },
                );
                assert(kept@.map_values(|o: UserOtp| o@).last() == self.otps()[i as int]);
                assert(kept@.map_values(|o: UserOtp| o@)
                    =~= kept@.map_values(|o: UserOtp| o@).drop_last().push(self.otps()[i as int]));
            }
            assert(self.otps().skip(i as int).drop_first() =~= self.otps().skip(i + 1));
            i += 1;
        }
        assert(self.otps().skip(n as int) =~= Seq::<OtpView>::empty());
        let ghost old_views = self.otps();
        self.user_otps = kept;
        proof {
            assert(self.otps() =~= spec_unexpired_otps(old_views, now));
            lemma_unexpired_otps_unique(old_views, now);
            assert forall|a: int, b: int| 0 <= a < b < self.user_otps@.len() implies (
            #[trigger] self.user_otps@[a]).user_id != (#[trigger] self.user_otps@[b]).user_id by {
                assert(self.otps()[a].user_id == self.user_otps@[a].user_id);
                assert(self.otps()[b].user_id == self.user_otps@[b].user_id);
            }
        }
        Ok(())
    }

    /// Sweeps every blacklist row whose expiration lies before `now` and
    /// says how many were removed.
    #[verifier::loop_isolation(false)]
    #[verifier::rlimit(100)]
    pub fn clear_all_expired_tokens(&mut self, now: u64) -> (r: Result<usize, DaoError>)
        requires
            old(self).wf(),
        ensures
            final(self).wf(),
            final(self).users == old(self).users,
            final(self).signin_nonces == old(self).signin_nonces,
            final(self).user_otps == old(self).user_otps,
            match r {
                Ok(count) => final(self).blacklist() == spec_unexpired_blacklist(
                    old(self).blacklist(),
                    now,
                ) && count == old(self).blacklist().len() - final(self).blacklist().len(),
                Err(_) => false,
            },
    {
        let n = self.blacklisted_tokens.len();
        let mut kept: Vec<BlacklistedToken> = Vec::new();
        let mut i: usize = 0;
        assert(self.blacklist().skip(0) == self.blacklist());
        while i < n
            invariant
                n == self.blacklisted_tokens@.len(),
                i <= n,
                self.blacklisted_tokens@ == old(self).blacklisted_tokens@,
                self.users@ == old(self).users@,
                self.signin_nonces@ == old(self).signin_nonces@,
                self.user_otps@ == old(self).user_otps@,
                kept@.len() <= i,
                spec_unexpired_blacklist(self.blacklist(), now) =~= kept@.map_values(
                    |b: BlacklistedToken| b@,
                ) + spec_unexpired_blacklist(self.blacklist().skip(i as int), now),
            decreases n - i,
        {
            assert(self.blacklist().skip(i as int).first() == self.blacklist()[i as int]);
            if self.blacklisted_tokens[i].token_expiration >= now {
                kept.push(
                    BlacklistedToken {
                        token_signature: clone_bytes(&self.blacklisted_tokens[i].token_signature),
                        token_expiration: self.blacklisted_tokens[i].token_expiration,
                    },
                );
                assert(kept@.map_values(|b: BlacklistedToken| b@).last() == self.blacklist()[
                    i as int]);
                assert(kept@.map_values(|b: BlacklistedToken| b@) =~= kept@.map_values(
                    |b: BlacklistedToken| b@,
                ).drop_last().push(self.blacklist()[i as int]));
            }
            assert(self.blacklist().skip(i as int).drop_first() =~= self.blacklist().skip(i + 1));
            i += 1;
        }
        assert(self.blacklist().skip(n as int) =~= Seq::<BlacklistView>::empty());
        let ghost old_views = self.blacklist();
        let count = self.blacklisted_tokens.len() - kept.len();
        proof {
            lemma_unexpired_blacklist_len(old_views, now);
        }
        self.blacklisted_tokens = kept;
        proof {
            assert(self.blacklist() =~= spec_unexpired_blacklist(old_views, now));
            lemma_unexpired_blacklist_unique(old_views, now);
            assert forall|a: int, b: int| 0 <= a < b < self.blacklisted_tokens@.len() implies (
            #[trigger] self.blacklisted_tokens@[a]).token_signature@ != (
            #[trigger] self.blacklisted_tokens@[b]).token_signature@ by {
                assert(self.blacklist()[a].token_signature == self.blacklisted_tokens@[
                    a].token_signature@);
                assert(self.blacklist()[b].token_signature == self.blacklisted_tokens@[
                    b].token_signature@);
            }
        }
        Ok(count)
    }

    /// Applies [`spec_rotate_nonce`] with a caller-supplied fresh value.
    #[verifier::loop_isolation(false)]
    #[verifier::rlimit(60)]
    pub fn rotate_signin_nonce(&mut self, user_email: &str, fresh_nonce: i32) -> (r: Result<
        i32,
        DaoError,
    >)
        requires
            old(self).wf(),
        ensures
            final(self).wf(),
            final(self).users == old(self).users,
            final(self).user_otps == old(self).user_otps,
            final(self).blacklisted_tokens == old(self).blacklisted_tokens,
            final(self).nonces() == spec_rotate_nonce(
                old(self).nonces(),
                user_email@,
                fresh_nonce,
            ).0,
            r == spec_rotate_nonce(old(self).nonces(), user_email@, fresh_nonce).1,
            r is Err ==> final(self).signin_nonces == old(self).signin_nonces,
    {
        let n = self.signin_nonces.len();
        let mut i: usize = 0;
        while i < n
            invariant
                *self == *old(self),
                n == self.signin_nonces@.len(),
                i <= n,
                forall|j: int|
                    0 <= j < i ==> (#[trigger] self.nonces()[j]).user_email != user_email@,
            decreases n - i,
        {
            if str_eq(self.signin_nonces[i].user_email.as_str(), user_email) {
                proof {
                    assert(old(self).nonces()[i as int].user_email == user_email@);
                    lemma_nonce_at_unique(old(self).nonces(), user_email@, i as int);
                }
                let current = self.signin_nonces[i].nonce;
                let mut row = self.signin_nonces.remove(i);
                row.nonce = fresh_nonce;
                self.signin_nonces.insert(i, row);
                proof {
                    let n0 = old(self).nonces();
                    assert(self.nonces() =~= n0.update(
                        i as int,
                        NonceView { user_email: user_email@, nonce: fresh_nonce },
                    ));
                    assert(n0[i as int].user_email == user_email@);
                    assert forall|a: int, b: int| 0 <= a < b < self.nonces().len() implies (
                    #[trigger] self.nonces()[a]).user_email != (
                    #[trigger] self.nonces()[b]).user_email by {
                        if a != i && b != i {
                            assert(self.nonces()[a] == n0[a]);
                            assert(self.nonces()[b] == n0[b]);
                        } else if a == i {
                            assert(self.nonces()[a].user_email == user_email@);
                            assert(self.nonces()[b] == n0[b]);
                            assert(n0[i as int].user_email != n0[b].user_email);
                        } else {
                            assert(self.nonces()[a] == n0[a]);
                            assert(self.nonces()[b].user_email == user_email@);
                            assert(n0[a].user_email != n0[i as int].user_email);
                        }
                    }
                }
                return Ok(current);
            }
            i += 1;
        }
        assert(!has_nonce(self.nonces(), user_email@));
        Err(DaoError::NotFound)
    }

    /// Reads the account's nonce and atomically replaces it with a freshly
    /// drawn random value: the returned value can never be handed to a
    /// second reader.
    pub fn get_and_refresh_signin_nonce(&mut self, user_email: &str) -> (r: Result<i32, DaoError>)
        requires
            old(self).wf(),
        ensures
            final(self).wf(),
            final(self).users == old(self).users,
            final(self).user_otps == old(self).user_otps,
            final(self).blacklisted_tokens == old(self).blacklisted_tokens,
            match r {
                Ok(nonce) => {
                    let i = nonce_at(old(self).nonces(), user_email@);
                    &&& has_nonce(old(self).nonces(), user_email@)
                    &&& nonce == old(self).nonces()[i].nonce
                    &&& final(self).nonces().len() == old(self).nonces().len()
                    &&& final(self).nonces()[i].user_email == user_email@
                    &&& forall|j: int|
                        0 <= j < old(self).nonces().len() && j != i ==> final(self).nonces()[j]
                            == old(self).nonces()[j]
                },
                Err(e) => e == DaoError::NotFound && !has_nonce(old(self).nonces(), user_email@)
                    && final(self).signin_nonces == old(self).signin_nonces,
            },
    {
        let fresh = random_i32();
        let r = self.rotate_signin_nonce(user_email, fresh);
        proof {
            if r is Ok {
                let i = nonce_at(old(self).nonces(), user_email@);
                assert(self.nonces() == old(self).nonces().update(
                    i,
                    NonceView { user_email: user_email@, nonce: fresh },
                ));
            }
        }
        r
    }

    /// The password-hash parameters and current nonce for an account; both
    /// the user row and the nonce row must exist.
    #[verifier::loop_isolation(false)]
    #[verifier::rlimit(60)]
    pub fn get_auth_string_data_signin_nonce(&mut self, user_email: &str) -> (r: Result<
        OutputSigninNonceAndHashParams,
        DaoError,
    >)
        requires
            old(self).wf(),
        ensures
            *final(self) == *old(self),
            match r {
                Ok(out) => {
                    let i = auth_user_at(old(self).users@, user_email@);
                    let k = nonce_at(old(self).nonces(), user_email@);
                    &&& has_auth_user(old(self).users@, user_email@)
                    &&& has_nonce(old(self).nonces(), user_email@)
                    &&& out.auth_string_salt@ == old(self).users@[i].auth_string_salt@
                    &&& out.auth_string_memory_cost_kib == old(self).users@[i].auth_string_memory_cost_kib
                    &&& out.auth_string_parallelism_factor == old(self).users@[i].auth_string_parallelism_factor
                    &&& out.auth_string_iters == old(self).users@[i].auth_string_iters
                    &&& out.nonce == old(self).nonces()[k].nonce
                },
                Err(e) => e == DaoError::NotFound && (!has_auth_user(old(self).users@, user_email@)
                    || !has_nonce(old(self).nonces(), user_email@)),
            },
    {
        let un = self.users.len();
        let mut ui: usize = 0;
        let mut found_user = false;
        let mut user_idx: usize = 0;
        while ui < un
            invariant
                un == self.users@.len(),
                ui <= un,
                !found_user ==> forall|j: int|
                    0 <= j < ui ==> (#[trigger] self.users@[j]).email@ != user_email@,
                found_user ==> user_idx < un && self.users@[user_idx as int].email@ == user_email@,
            decreases un - ui + (if found_user { 0int } else { 1int }),
    {
            if !found_user && str_eq(self.users[ui].email.as_str(), user_email) {
                found_user = true;
                user_idx = ui;
            }
            ui += 1;
        }
        if !found_user {
            assert(!has_auth_user(self.users@, user_email@));
            return Err(DaoError::NotFound);
        }
        proof {
            lemma_auth_user_at_unique(self.users@, user_email@, user_idx as int);
        }
        let nn = self.signin_nonces.len();
        let mut ni: usize = 0;
        while ni < nn
            invariant
                nn == self.signin_nonces@.len(),
                ni <= nn,
                user_idx < self.users@.len(),
                self.users@[user_idx as int].email@ == user_email@,
                auth_user_at(self.users@, user_email@) == user_idx,
                has_auth_user(self.users@, user_email@),
                forall|j: int|
                    0 <= j < ni ==> (#[trigger] self.nonces()[j]).user_email != user_email@,
            decreases nn - ni,
        {
            if str_eq(self.signin_nonces[ni].user_email.as_str(), user_email) {
                proof {
                    assert(self.nonces()[ni as int].user_email == user_email@);
                    lemma_nonce_at_unique(self.nonces(), user_email@, ni as int);
                }
                return Ok(
                    OutputSigninNonceAndHashParams {
                        auth_string_salt: clone_bytes(&self.users[user_idx].auth_string_salt),
                        auth_string_memory_cost_kib: self.users[user_idx].auth_string_memory_cost_kib,
                        auth_string_parallelism_factor:
                            self.users[user_idx].auth_string_parallelism_factor,
                        auth_string_iters: self.users[user_idx].auth_string_iters,
                        nonce: self.signin_nonces[ni].nonce,
                    },
                );
            }
            ni += 1;
        }
        assert(!has_nonce(self.nonces(), user_email@));
        Err(DaoError::NotFound)
    }
}

/// With unique emails, a found index is the chosen one.
proof fn lemma_auth_user_at_unique(s: Seq<AuthUser>, email: Seq<char>, i: int)
    requires
        forall|a: int, b: int|
            0 <= a < b < s.len() ==> (#[trigger] s[a]).email@ != (#[trigger] s[b]).email@,
        0 <= i < s.len(),
        s[i].email@ == email,
    ensures
        has_auth_user(s, email),
        auth_user_at(s, email) == i,
{
    assert(has_auth_user(s, email));
    let k = auth_user_at(s, email);
    if k != i {
        if k < i {
            assert(s[k].email@ != s[i].email@);
        } else {
            assert(s[i].email@ != s[k].email@);
        }
    }
}

/// With unique emails, a found index is the chosen one.
proof fn lemma_nonce_at_unique(s: Seq<NonceView>, email: Seq<char>, i: int)
    requires
        forall|a: int, b: int|
            0 <= a < b < s.len() ==> (#[trigger] s[a]).user_email != (#[trigger] s[b]).user_email,
        0 <= i < s.len(),
        s[i].user_email == email,
    ensures
        has_nonce(s, email),
        nonce_at(s, email) == i,
{
    assert(has_nonce(s, email));
    let k = nonce_at(s, email);
    if k != i {
        if k < i {
            assert(s[k].user_email != s[i].user_email);
        } else {
            assert(s[i].user_email != s[k].user_email);
        }
    }
}

/// With unique user ids, a found index is the chosen one.
proof fn lemma_otp_at_unique(s: Seq<UserOtp>, user_id: Uid, i: int)
    requires
        forall|a: int, b: int|
            0 <= a < b < s.len() ==> (#[trigger] s[a]).user_id != (#[trigger] s[b]).user_id,
        0 <= i < s.len(),
        s[i].user_id == user_id,
    ensures
        has_otp(s, user_id),
        otp_at(s, user_id) == i,
{
    assert(has_otp(s, user_id));
    let k = otp_at(s, user_id);
    if k != i {
        if k < i {
            assert(s[k].user_id != s[i].user_id);
        } else {
            assert(s[i].user_id != s[k].user_id);
        }
    }
}

/// A sweep keeps a subsequence, so per-user uniqueness survives it.
proof fn lemma_unexpired_otps_unique(s: Seq<OtpView>, now: u64)
    requires
        forall|a: int, b: int|
            0 <= a < b < s.len() ==> (#[trigger] s[a]).user_id != (#[trigger] s[b]).user_id,
    ensures
        forall|a: int, b: int|
            0 <= a < b < spec_unexpired_otps(s, now).len() ==> (#[trigger] spec_unexpired_otps(
                s,
                now,
            )[a]).user_id != (#[trigger] spec_unexpired_otps(s, now)[b]).user_id,
    decreases s.len(),
{
    if s.len() > 0 {
        assert(forall|a: int, b: int|
            0 <= a < b < s.drop_first().len() ==> (#[trigger] s.drop_first()[a]).user_id != (
            #[trigger] s.drop_first()[b]).user_id);
        lemma_unexpired_otps_unique(s.drop_first(), now);
        let t = spec_unexpired_otps(s, now);
        if s.first().expiration >= now {
            assert forall|a: int, b: int| 0 <= a < b < t.len() implies (#[trigger] t[a]).user_id
                != (#[trigger] t[b]).user_id by {
                if a == 0 {
                    lemma_unexpired_member(s.drop_first(), now, b - 1);
                } else {
                    assert(t[a] == spec_unexpired_otps(s.drop_first(), now)[a - 1]);
                    assert(t[b] == spec_unexpired_otps(s.drop_first(), now)[b - 1]);
                }
            }
        }
    }
}

/// Every kept code was in the original table.
proof fn lemma_unexpired_member(s: Seq<OtpView>, now: u64, j: int)
    requires
        0 <= j < spec_unexpired_otps(s, now).len(),
    ensures
        exists|k: int|
            0 <= k < s.len() && #[trigger] s[k] == spec_unexpired_otps(s, now)[j],
    decreases s.len(),
{
    if s.len() > 0 {
        if s.first().expiration >= now {
            if j == 0 {
                assert(s[0] == spec_unexpired_otps(s, now)[0]);
            } else {
                lemma_unexpired_member(s.drop_first(), now, j - 1);
                let k = choose|k: int|
                    0 <= k < s.drop_first().len() && #[trigger] s.drop_first()[k]
                        == spec_unexpired_otps(s.drop_first(), now)[j - 1];
                assert(s[k + 1] == spec_unexpired_otps(s, now)[j]);
            }
        } else {
            lemma_unexpired_member(s.drop_first(), now, j);
            let k = choose|k: int|
                0 <= k < s.drop_first().len() && #[trigger] s.drop_first()[k]
                    == spec_unexpired_otps(s.drop_first(), now)[j];
            assert(s[k + 1] == spec_unexpired_otps(s, now)[j]);
        }
    }
}

/// The sweep never keeps more rows than there were.
proof fn lemma_unexpired_blacklist_len(s: Seq<BlacklistView>, now: u64)
    ensures
        spec_unexpired_blacklist(s, now).len() <= s.len(),
    decreases s.len(),
{
    if s.len() > 0 {
        lemma_unexpired_blacklist_len(s.drop_first(), now);
    }
}

/// A sweep keeps a subsequence, so per-signature uniqueness survives it.
proof fn lemma_unexpired_blacklist_unique(s: Seq<BlacklistView>, now: u64)
    requires
        forall|a: int, b: int|
            0 <= a < b < s.len() ==> (#[trigger] s[a]).token_signature != (
            #[trigger] s[b]).token_signature,
    ensures
        forall|a: int, b: int|
            0 <= a < b < spec_unexpired_blacklist(s, now).len() ==> (
            #[trigger] spec_unexpired_blacklist(s, now)[a]).token_signature != (
            #[trigger] spec_unexpired_blacklist(s, now)[b]).token_signature,
    decreases s.len(),
{
    if s.len() > 0 {
        assert(forall|a: int, b: int|
            0 <= a < b < s.drop_first().len() ==> (#[trigger] s.drop_first()[a]).token_signature
                != (#[trigger] s.drop_first()[b]).token_signature);
        lemma_unexpired_blacklist_unique(s.drop_first(), now);
        let t = spec_unexpired_blacklist(s, now);
        if s.first().token_expiration >= now {
            assert forall|a: int, b: int| 0 <= a < b < t.len() implies (
            #[trigger] t[a]).token_signature != (#[trigger] t[b]).token_signature by {
                if a == 0 {
                    lemma_unexpired_blacklist_member(s.drop_first(), now, b - 1);
                } else {
                    assert(t[a] == spec_unexpired_blacklist(s.drop_first(), now)[a - 1]);
                    assert(t[b] == spec_unexpired_blacklist(s.drop_first(), now)[b - 1]);
                }
            }
        }
    }
}

/// Every kept blacklist row was in the original table.
proof fn lemma_unexpired_blacklist_member(s: Seq<BlacklistView>, now: u64, j: int)
    requires
        0 <= j < spec_unexpired_blacklist(s, now).len(),
    ensures
        exists|k: int|
            0 <= k < s.len() && #[trigger] s[k] == spec_unexpired_blacklist(s, now)[j],
    decreases s.len(),
{
    if s.len() > 0 {
        if s.first().token_expiration >= now {
            if j == 0 {
                assert(s[0] == spec_unexpired_blacklist(s, now)[0]);
            } else {
                lemma_unexpired_blacklist_member(s.drop_first(), now, j - 1);
                let k = choose|k: int|
                    0 <= k < s.drop_first().len() && #[trigger] s.drop_first()[k]
                        == spec_unexpired_blacklist(s.drop_first(), now)[j - 1];
                assert(s[k + 1] == spec_unexpired_blacklist(s, now)[j]);
            }
        } else {
            lemma_unexpired_blacklist_member(s.drop_first(), now, j);
            let k = choose|k: int|
                0 <= k < s.drop_first().len() && #[trigger] s.drop_first()[k]
                    == spec_unexpired_blacklist(s.drop_first(), now)[j];
            assert(s[k + 1] == spec_unexpired_blacklist(s, now)[j]);
        }
    }
}

/// Nonce rotation never repeats: each read hands out the stored value and
/// installs the fresh one, so across consecutive reads the values returned
/// are exactly the prior stored value and then each fresh value — distinct
/// whenever the fresh values neither repeat nor hit the first value.
pub proof fn lemma_nonce_rotation_distinct(
    v: Seq<NonceView>,
    email: Seq<char>,
    f1: i32,
    f2: i32,
)
    requires
        forall|a: int, b: int|
            0 <= a < b < v.len() ==> (#[trigger] v[a]).user_email != (#[trigger] v[b]).user_email,
        has_nonce(v, email),
    ensures
        ({
            let first = spec_rotate_nonce(v, email, f1);
            let second = spec_rotate_nonce(first.0, email, f2);
            let third = spec_rotate_nonce(second.0, email, f2);
            &&& first.1 == Ok::<i32, DaoError>(v[nonce_at(v, email)].nonce)
            &&& second.1 == Ok::<i32, DaoError>(f1)
            &&& (f1 != v[nonce_at(v, email)].nonce ==> second.1 != first.1)
        }),
{
    let i = nonce_at(v, email);
    let first = spec_rotate_nonce(v, email, f1);
    let v1 = first.0;
    assert(v1[i].user_email == email);
    assert(has_nonce(v1, email));
    assert forall|a: int, b: int| 0 <= a < b < v1.len() implies (#[trigger] v1[a]).user_email != (
    #[trigger] v1[b]).user_email by {
        if a != i && b != i {
            assert(v1[a] == v[a]);
            assert(v1[b] == v[b]);
        }
    }
    lemma_nonce_at_view_unique(v1, email, i);
    assert(v1[i].nonce == f1);
}

/// With unique emails, an index with the email is the chosen one.
proof fn lemma_nonce_at_view_unique(s: Seq<NonceView>, email: Seq<char>, i: int)
    requires
        forall|a: int, b: int|
            0 <= a < b < s.len() ==> (#[trigger] s[a]).user_email != (#[trigger] s[b]).user_email,
        0 <= i < s.len(),
        s[i].user_email == email,
    ensures
        has_nonce(s, email),
        nonce_at(s, email) == i,
{
    assert(has_nonce(s, email));
    let k = nonce_at(s, email);
    if k != i {
        if k < i {
            assert(s[k].user_email != s[i].user_email);
        } else {
            assert(s[i].user_email != s[k].user_email);
        }
    }
}

} // verus!
