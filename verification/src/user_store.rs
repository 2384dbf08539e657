//! The user store: accounts with their long-lived public keys and
//! password-hash parameters, digest-guarded preference and keystore blobs,
//! and the deletion-request machinery.

use vstd::prelude::*;


use crate::budget_store::{access_key_id_at, budget_has_keys, has_access_key_id, has_budget};
use crate::bytes::{bytes_eq, clone_bytes};
use crate::models::{AccessKeyView, BudgetAccessKey};
use crate::crypto::{random_i32, sha1_hash, sha1_of, uid_new_v4};
use crate::errors::DaoError;
use crate::ids::Uid;
use crate::strutil::str_eq;

verus! {

/// A user account row.
#[derive(Debug)]
pub struct User {
    pub id: Uid,
    pub email: String,
    pub is_verified: bool,
    pub created_timestamp: u64,
    pub public_key_id: Uid,
    pub public_key: Vec<u8>,
    pub auth_string_hash: String,
    pub auth_string_salt: Vec<u8>,
    pub auth_string_memory_cost_kib: i32,
    pub auth_string_parallelism_factor: i32,
    pub auth_string_iters: i32,
    pub password_encryption_salt: Vec<u8>,
    pub password_encryption_memory_cost_kib: i32,
    pub password_encryption_parallelism_factor: i32,
    pub password_encryption_iters: i32,
    pub recovery_key_salt: Vec<u8>,
    pub recovery_key_memory_cost_kib: i32,
    pub recovery_key_parallelism_factor: i32,
    pub recovery_key_iters: i32,
    pub encryption_key_encrypted_with_password: Vec<u8>,
    pub encryption_key_encrypted_with_recovery_key: Vec<u8>,
}

/// A user's long-lived public key with its rotation identifier.
#[derive(Debug)]
pub struct UserPublicKey {
    pub id: Uid,
    pub value: Vec<u8>,
}

/// A digest-guarded preferences blob.
#[derive(Debug)]
pub struct UserPreferences {
    pub user_id: Uid,
    pub encrypted_blob: Vec<u8>,
    pub encrypted_blob_sha1_hash: Vec<u8>,
}

/// A digest-guarded keystore blob.
#[derive(Debug)]
pub struct UserKeystore {
    pub user_id: Uid,
    pub encrypted_blob: Vec<u8>,
    pub encrypted_blob_sha1_hash: Vec<u8>,
}

/// A single-use backup code.
#[derive(Debug)]
pub struct UserBackupCode {
    pub user_id: Uid,
    pub code: String,
}

/// A pending account deletion.
#[derive(Debug)]
pub struct UserDeletionRequest {
    pub user_id: Uid,
    pub ready_for_deletion_time: u64,
}

/// A capability key marked for deletion together with its user.
#[derive(Debug)]
pub struct UserDeletionRequestBudgetKey {
    pub key_id: Uid,
    pub user_id: Uid,
    pub delete_me_time: u64,
}

/// Is some user row keyed by this email?
pub open spec fn has_user_email(s: Seq<User>, email: Seq<char>) -> bool {
    exists|i: int| 0 <= i < s.len() && (#[trigger] s[i]).email@ == email
}

/// The index of the user row keyed by this email.
pub open spec fn user_email_at(s: Seq<User>, email: Seq<char>) -> int {
    choose|i: int| 0 <= i < s.len() && (#[trigger] s[i]).email@ == email
}

/// Is some user row keyed by this identifier?
pub open spec fn has_user_id(s: Seq<User>, id: Uid) -> bool {
    exists|i: int| 0 <= i < s.len() && (#[trigger] s[i]).id == id
}

/// The index of the user row keyed by this identifier.
pub open spec fn user_id_at(s: Seq<User>, id: Uid) -> int {
    choose|i: int| 0 <= i < s.len() && (#[trigger] s[i]).id == id
}

/// Is some preferences row keyed by this user?
pub open spec fn has_prefs(s: Seq<UserPreferences>, user_id: Uid) -> bool {
    exists|i: int| 0 <= i < s.len() && (#[trigger] s[i]).user_id == user_id
}

/// The index of the preferences row keyed by this user.
pub open spec fn prefs_at(s: Seq<UserPreferences>, user_id: Uid) -> int {
    choose|i: int| 0 <= i < s.len() && (#[trigger] s[i]).user_id == user_id
}

/// Is some keystore row keyed by this user?
pub open spec fn has_keystore(s: Seq<UserKeystore>, user_id: Uid) -> bool {
    exists|i: int| 0 <= i < s.len() && (#[trigger] s[i]).user_id == user_id
}

/// The index of the keystore row keyed by this user.
pub open spec fn keystore_at(s: Seq<UserKeystore>, user_id: Uid) -> int {
    choose|i: int| 0 <= i < s.len() && (#[trigger] s[i]).user_id == user_id
}

/// Is some deletion request keyed by this user?
pub open spec fn has_deletion_request(s: Seq<UserDeletionRequest>, user_id: Uid) -> bool {
    exists|i: int| 0 <= i < s.len() && (#[trigger] s[i]).user_id == user_id
}

/// The index of the deletion request keyed by this user.
pub open spec fn deletion_request_at(s: Seq<UserDeletionRequest>, user_id: Uid) -> int {
    choose|i: int| 0 <= i < s.len() && (#[trigger] s[i]).user_id == user_id
}

/// One user row per email and one per identifier.
pub open spec fn unique_users(s: Seq<User>) -> bool {
    forall|i: int, j: int|
        0 <= i < j < s.len() ==> (#[trigger] s[i]).email@ != (#[trigger] s[j]).email@ && s[i].id
            != s[j].id
}

/// One preferences row per user.
pub open spec fn unique_prefs(s: Seq<UserPreferences>) -> bool {
    forall|i: int, j: int|
        0 <= i < j < s.len() ==> (#[trigger] s[i]).user_id != (#[trigger] s[j]).user_id
}

/// One keystore row per user.
pub open spec fn unique_keystores(s: Seq<UserKeystore>) -> bool {
    forall|i: int, j: int|
        0 <= i < j < s.len() ==> (#[trigger] s[i]).user_id != (#[trigger] s[j]).user_id
}

/// One deletion request per user.
pub open spec fn unique_deletion_requests(s: Seq<UserDeletionRequest>) -> bool {
    forall|i: int, j: int|
        0 <= i < j < s.len() ==> (#[trigger] s[i]).user_id != (#[trigger] s[j]).user_id
}

/// The user store.
pub struct Dao {
    pub users: Vec<User>,
    pub user_preferences: Vec<UserPreferences>,
    pub user_keystores: Vec<UserKeystore>,
    pub signin_nonces: Vec<crate::auth_store::SigninNonce>,
    pub user_backup_codes: Vec<UserBackupCode>,
    pub user_deletion_requests: Vec<UserDeletionRequest>,
    pub user_deletion_request_budget_keys: Vec<UserDeletionRequestBudgetKey>,
}

impl Dao {
    /// Well-formedness: one row per key in the uniquely keyed tables.
    pub open spec fn wf(&self) -> bool {
        &&& unique_users(self.users@)
        &&& unique_prefs(self.user_preferences@)
        &&& unique_keystores(self.user_keystores@)
        &&& unique_deletion_requests(self.user_deletion_requests@)
    }

    /// An empty store.
    pub fn new() -> (r: Dao)
        ensures
            r.users@.len() == 0,
            r.user_preferences@.len() == 0,
            r.user_keystores@.len() == 0,
            r.signin_nonces@.len() == 0,
            r.user_backup_codes@.len() == 0,
            r.user_deletion_requests@.len() == 0,
            r.user_deletion_request_budget_keys@.len() == 0,
            r.wf(),
    {
        Dao {
            users: Vec::new(),
            user_preferences: Vec::new(),
            user_keystores: Vec::new(),
            signin_nonces: Vec::new(),
            user_backup_codes: Vec::new(),
            user_deletion_requests: Vec::new(),
            user_deletion_request_budget_keys: Vec::new(),
        }
    }

    /// The long-lived public key and its rotation identifier for an email.
    #[verifier::loop_isolation(false)]
    pub fn get_user_public_key(&self, user_email: &str) -> (r: Result<UserPublicKey, DaoError>)
        requires
            self.wf(),
        ensures
            match r {
                Ok(k) => {
                    let i = user_email_at(self.users@, user_email@);
                    &&& has_user_email(self.users@, user_email@)
                    &&& k.id == self.users@[i].public_key_id
                    &&& k.value@ == self.users@[i].public_key@
                },
                Err(e) => e == DaoError::NotFound && !has_user_email(self.users@, user_email@),
            },
    {
        let n = self.users.len();
        let mut i: usize = 0;
        while i < n
            invariant
                i <= n,
                forall|j: int| 0 <= j < i ==> (#[trigger] self.users@[j]).email@ != user_email@,
            decreases n - i,
        {
            if str_eq(self.users[i].email.as_str(), user_email) {
                proof {
                    lemma_user_email_at_unique(self.users@, user_email@, i as int);
                }
                return Ok(
                    UserPublicKey {
                        id: self.users[i].public_key_id,
                        value: clone_bytes(&self.users[i].public_key),
                    },
                );
            }
            i += 1;
        }
        assert(!has_user_email(self.users@, user_email@));
        Err(DaoError::NotFound)
    }

    /// Creates an account: the user row, its digest-guarded preference and
    /// keystore blobs, its sign-in nonce and its backup codes appear
    /// together, with the email lowercased.  The caller's email must be
    /// fresh.
    #[verifier::loop_isolation(false)]
    #[verifier::rlimit(60)]
    pub fn create_user(
        &mut self,
        email: &str,
        auth_string_hash: &str,
        auth_string_salt: &Vec<u8>,
        auth_string_memory_cost_kib: i32,
        auth_string_parallelism_factor: i32,
        auth_string_iters: i32,
        password_encryption_salt: &Vec<u8>,
        password_encryption_memory_cost_kib: i32,
        password_encryption_parallelism_factor: i32,
        password_encryption_iters: i32,
        recovery_key_salt: &Vec<u8>,
        recovery_key_memory_cost_kib: i32,
        recovery_key_parallelism_factor: i32,
        recovery_key_iters: i32,
        encryption_key_encrypted_with_password: &Vec<u8>,
        encryption_key_encrypted_with_recovery_key: &Vec<u8>,
        public_key_id: Uid,
        public_key: &Vec<u8>,
        preferences_encrypted: &Vec<u8>,
        user_keystore_encrypted: &Vec<u8>,
        backup_codes: &Vec<String>,
        created_timestamp: u64,
    ) -> (r: Result<Uid, DaoError>)
        requires
            old(self).wf(),
        ensures
            final(self).wf(),
            match r {
                Ok(user_id) => {
                    let lower = crate::strutil::lower_of(email@);
                    &&& !has_user_email(old(self).users@, lower)
                    &&& !has_user_id(old(self).users@, user_id)
                    &&& final(self).users@.len() == old(self).users@.len() + 1
                    &&& (forall|j: int|
                        0 <= j < old(self).users@.len() ==> #[trigger] final(self).users@[j] == old(self).users@[j])
                    &&& {
                        let u = final(self).users@.last();
                        &&& u.id == user_id
                        &&& u.email@ == lower
                        &&& !u.is_verified
                        &&& u.public_key_id == public_key_id
                        &&& u.public_key@ == public_key@
                        &&& u.auth_string_hash@ == auth_string_hash@
                        &&& u.created_timestamp == created_timestamp
                    }
                    &&& final(self).user_preferences@.len() == old(self).user_preferences@.len()
                        + 1
                    &&& final(self).user_preferences@.last().user_id == user_id
                    &&& final(self).user_preferences@.last().encrypted_blob@
                        == preferences_encrypted@
                    &&& final(self).user_preferences@.last().encrypted_blob_sha1_hash@ == sha1_of(
                        preferences_encrypted@,
                    )
                    &&& final(self).user_keystores@.len() == old(self).user_keystores@.len() + 1
                    &&& final(self).user_keystores@.last().user_id == user_id
                    &&& final(self).user_keystores@.last().encrypted_blob@
                        == user_keystore_encrypted@
                    &&& final(self).user_keystores@.last().encrypted_blob_sha1_hash@ == sha1_of(
                        user_keystore_encrypted@,
                    )
                    &&& final(self).signin_nonces@.len() == old(self).signin_nonces@.len() + 1
                    &&& final(self).signin_nonces@.last().user_email@ == lower
                    &&& final(self).user_backup_codes@.len() == old(self).user_backup_codes@.len()
                        + backup_codes@.len()
                    &&& (forall|j: int|
                        0 <= j < old(self).user_backup_codes@.len() ==> #[trigger] final(self).user_backup_codes@[j] == old(self).user_backup_codes@[j])
                    &&& (forall|j: int|
                        0 <= j < backup_codes@.len() ==> (#[trigger] final(self).user_backup_codes@[old(self).user_backup_codes@.len() + j]).user_id
                            == user_id && final(self).user_backup_codes@[old(self).user_backup_codes@.len() + j].code@ == backup_codes@[j]@)
                },
                Err(e) => *final(self) == *old(self) && (e == DaoError::NotFound ==> false) && (e
                    == DaoError::UniquenessViolation),
            },
    {
        let email_lowercase = crate::strutil::str_lowercase(email);
        let user_id = uid_new_v4();
        let n = self.users.len();
        let mut i: usize = 0;
        while i < n
            invariant
                *self == *old(self),
                i <= n,
                forall|j: int|
                    0 <= j < i ==> (#[trigger] self.users@[j]).email@ != email_lowercase@
                        && self.users@[j].id != user_id,
            decreases n - i,
        {
            if str_eq(self.users[i].email.as_str(), email_lowercase.as_str()) {
                return Err(DaoError::UniquenessViolation);
            }
            if self.users[i].id == user_id {
                return Err(DaoError::UniquenessViolation);
            }
            i += 1;
        }
        assert(!has_user_email(self.users@, email_lowercase@));
        assert(!has_user_id(self.users@, user_id));
        let pn = self.user_preferences.len();
        let mut i: usize = 0;
        while i < pn
            invariant
                *self == *old(self),
                i <= pn == self.user_preferences@.len(),
                forall|j: int|
                    0 <= j < i ==> (#[trigger] self.user_preferences@[j]).user_id != user_id,
            decreases pn - i,
        {
            if self.user_preferences[i].user_id == user_id {
                return Err(DaoError::UniquenessViolation);
            }
            i += 1;
        }
        assert(!has_prefs(self.user_preferences@, user_id));
        let kn = self.user_keystores.len();
        let mut i: usize = 0;
        while i < kn
            invariant
                *self == *old(self),
                i <= kn == self.user_keystores@.len(),
                forall|j: int|
                    0 <= j < i ==> (#[trigger] self.user_keystores@[j]).user_id != user_id,
            decreases kn - i,
        {
            if self.user_keystores[i].user_id == user_id {
                return Err(DaoError::UniquenessViolation);
            }
            i += 1;
        }
        assert(!has_keystore(self.user_keystores@, user_id));
        let nonce = random_i32();
        let m = backup_codes.len();
        let mut k: usize = 0;
        while k < m
            invariant
                k <= m == backup_codes@.len(),
                self.users@ == old(self).users@,
                self.user_preferences@ == old(self).user_preferences@,
                self.user_keystores@ == old(self).user_keystores@,
                self.signin_nonces@ == old(self).signin_nonces@,
                self.user_deletion_requests@ == old(self).user_deletion_requests@,
                self.user_deletion_request_budget_keys@ == old(self).user_deletion_request_budget_keys@,
                self.user_backup_codes@.len() == old(self).user_backup_codes@.len() + k,
                forall|j: int|
                    0 <= j < old(self).user_backup_codes@.len()
                        ==> #[trigger] self.user_backup_codes@[j] == old(self).user_backup_codes@[j],
                forall|j: int|
                    0 <= j < k ==> (#[trigger] self.user_backup_codes@[old(self).user_backup_codes@.len() + j]).user_id == user_id
                        && self.user_backup_codes@[old(self).user_backup_codes@.len() + j].code@
                        == backup_codes@[j]@,
            decreases m - k,
        {
            self.user_backup_codes.push(
                UserBackupCode { user_id, code: backup_codes[k].clone() },
            );
            k += 1;
        }
        self.users.push(
            User {
                id: user_id,
                email: email_lowercase.clone(),
                is_verified: false,
                created_timestamp,
                public_key_id,
                public_key: clone_bytes(public_key),
                auth_string_hash: auth_string_hash.to_owned(),
                auth_string_salt: clone_bytes(auth_string_salt),
                auth_string_memory_cost_kib,
                auth_string_parallelism_factor,
                auth_string_iters,
                password_encryption_salt: clone_bytes(password_encryption_salt),
                password_encryption_memory_cost_kib,
                password_encryption_parallelism_factor,
                password_encryption_iters,
                recovery_key_salt: clone_bytes(recovery_key_salt),
                recovery_key_memory_cost_kib,
                recovery_key_parallelism_factor,
                recovery_key_iters,
                encryption_key_encrypted_with_password: clone_bytes(
                    encryption_key_encrypted_with_password,
                ),
                encryption_key_encrypted_with_recovery_key: clone_bytes(
                    encryption_key_encrypted_with_recovery_key,
                ),
            },
        );
        self.user_preferences.push(
            UserPreferences {
                user_id,
                encrypted_blob: clone_bytes(preferences_encrypted),
                encrypted_blob_sha1_hash: sha1_hash(preferences_encrypted.as_slice()),
            },
        );
        self.user_keystores.push(
            UserKeystore {
                user_id,
                encrypted_blob: clone_bytes(user_keystore_encrypted),
                encrypted_blob_sha1_hash: sha1_hash(user_keystore_encrypted.as_slice()),
            },
        );
        self.signin_nonces.push(
            crate::auth_store::SigninNonce { user_email: email_lowercase, nonce },
        );
        proof {
            assert forall|a: int, b: int| 0 <= a < b < self.users@.len() implies (
            #[trigger] self.users@[a]).email@ != (#[trigger] self.users@[b]).email@
                && self.users@[a].id != self.users@[b].id by {
                assert(self.users@[a] == old(self).users@[a]);
                if b < old(self).users@.len() {
                    assert(self.users@[b] == old(self).users@[b]);
                } else {
                    assert(self.users@[b].email@ == email_lowercase@);
                    assert(self.users@[b].id == user_id);
                }
            }
            assert forall|a: int, b: int| 0 <= a < b < self.user_preferences@.len() implies (
            #[trigger] self.user_preferences@[a]).user_id != (
            #[trigger] self.user_preferences@[b]).user_id by {
                assert(self.user_preferences@[a] == old(self).user_preferences@[a]);
                if b < old(self).user_preferences@.len() {
                    assert(self.user_preferences@[b] == old(self).user_preferences@[b]);
                } else {
                    assert(self.user_preferences@[b].user_id == user_id);
                }
            }
            assert forall|a: int, b: int| 0 <= a < b < self.user_keystores@.len() implies (
            #[trigger] self.user_keystores@[a]).user_id != (
            #[trigger] self.user_keystores@[b]).user_id by {
                assert(self.user_keystores@[a] == old(self).user_keystores@[a]);
                if b < old(self).user_keystores@.len() {
                    assert(self.user_keystores@[b] == old(self).user_keystores@[b]);
                } else {
                    assert(self.user_keystores@[b].user_id == user_id);
                }
            }
        }
                Ok(user_id)
    }

    /// Marks an account verified.
    #[verifier::loop_isolation(false)]
    pub fn verify_user_creation(&mut self, user_id: Uid) -> (r: Result<(), DaoError>)
        requires
            old(self).wf(),
        ensures
            final(self).wf(),
            r is Ok,
            final(self).user_preferences == old(self).user_preferences,
            final(self).user_keystores == old(self).user_keystores,
            final(self).signin_nonces == old(self).signin_nonces,
            final(self).user_backup_codes == old(self).user_backup_codes,
            final(self).user_deletion_requests == old(self).user_deletion_requests,
            final(self).user_deletion_request_budget_keys == old(self).user_deletion_request_budget_keys,
            final(self).users@.len() == old(self).users@.len(),
            forall|j: int|
                0 <= j < old(self).users@.len() && (#[trigger] old(self).users@[j]).id != user_id
                    ==> final(self).users@[j] == old(self).users@[j],
            has_user_id(old(self).users@, user_id) ==> {
                let i = user_id_at(old(self).users@, user_id);
                &&& final(self).users@[i] == (User {
                    is_verified: true,
                    ..old(self).users@[i]
                })
            },
    {
        let n = self.users.len();
        let mut i: usize = 0;
        while i < n
            invariant
                *self == *old(self),
                i <= n,
                forall|j: int| 0 <= j < i ==> (#[trigger] self.users@[j]).id != user_id,
            decreases n - i,
        {
            if self.users[i].id == user_id {
                proof {
                    lemma_user_id_at_unique(old(self).users@, user_id, i as int);
                }
                let mut row = self.users.remove(i);
                row.is_verified = true;
                let ghost rowv = row;
                self.users.insert(i, row);
                proof {
                    assert(self.users@ =~= old(self).users@.update(i as int, rowv));
                    assert forall|a: int, b: int| 0 <= a < b < self.users@.len() implies (
                    #[trigger] self.users@[a]).email@ != (#[trigger] self.users@[b]).email@
                        && self.users@[a].id != self.users@[b].id by {
                        assert(self.users@[a] == if a == i {
                            rowv
                        } else {
                            old(self).users@[a]
                        });
                        assert(self.users@[b] == if b == i {
                            rowv
                        } else {
                            old(self).users@[b]
                        });
                    }
                }
                return Ok(());
            }
            i += 1;
        }
        assert(!has_user_id(self.users@, user_id));
        Ok(())
    }

    /// Rotates the account's long-lived public key, guarded by the previous
    /// key identifier: a stale identifier means another rotation won.
    #[verifier::loop_isolation(false)]
    pub fn rotate_user_public_key(
        &mut self,
        user_id: Uid,
        public_key_id: Uid,
        public_key: &Vec<u8>,
        expected_previous_public_key_id: Uid,
    ) -> (r: Result<(), DaoError>)
        requires
            old(self).wf(),
        ensures
            final(self).wf(),
            final(self).user_preferences == old(self).user_preferences,
            final(self).user_keystores == old(self).user_keystores,
            final(self).signin_nonces == old(self).signin_nonces,
            match r {
                Ok(_) => {
                    let i = user_id_at(old(self).users@, user_id);
                    &&& has_user_id(old(self).users@, user_id)
                    &&& old(self).users@[i].public_key_id == expected_previous_public_key_id
                    &&& final(self).users@.len() == old(self).users@.len()
                    &&& final(self).users@[i].public_key_id == public_key_id
                    &&& final(self).users@[i].public_key@ == public_key@
                    &&& final(self).users@[i].email@ == old(self).users@[i].email@
                    &&& final(self).users@[i].id == user_id
                    &&& forall|j: int|
                        0 <= j < old(self).users@.len() && j != i ==> final(self).users@[j] == old(self).users@[j]
                },
                Err(e) => final(self).users == old(self).users && (e == DaoError::NotFound || e
                    == DaoError::OutOfDateHash) && (e == DaoError::NotFound <==> !has_user_id(
                    old(self).users@,
                    user_id,
                )) && (e == DaoError::OutOfDateHash <==> has_user_id(old(self).users@, user_id)
                    && old(self).users@[user_id_at(old(self).users@, user_id)].public_key_id
                    != expected_previous_public_key_id),
            },
    {
        let n = self.users.len();
        let mut i: usize = 0;
        while i < n
            invariant
                *self == *old(self),
                i <= n,
                forall|j: int| 0 <= j < i ==> (#[trigger] self.users@[j]).id != user_id,
            decreases n - i,
        {
            if self.users[i].id == user_id {
                proof {
                    lemma_user_id_at_unique(old(self).users@, user_id, i as int);
                }
                if self.users[i].public_key_id != expected_previous_public_key_id {
                    return Err(DaoError::OutOfDateHash);
                }
                let mut row = self.users.remove(i);
                row.public_key_id = public_key_id;
                row.public_key = clone_bytes(public_key);
                let ghost rowv = row;
                self.users.insert(i, row);
                proof {
                    assert(self.users@ =~= old(self).users@.update(i as int, rowv));
                    assert forall|a: int, b: int| 0 <= a < b < self.users@.len() implies (
                    #[trigger] self.users@[a]).email@ != (#[trigger] self.users@[b]).email@
                        && self.users@[a].id != self.users@[b].id by {
                        assert(self.users@[a] == if a == i {
                            rowv
                        } else {
                            old(self).users@[a]
                        });
                        assert(self.users@[b] == if b == i {
                            rowv
                        } else {
                            old(self).users@[b]
                        });
                    }
                }
                return Ok(());
            }
            i += 1;
        }
        assert(!has_user_id(self.users@, user_id));
        Err(DaoError::NotFound)
    }

    /// A digest-guarded update of the preferences blob.
    #[verifier::loop_isolation(false)]
    pub fn update_user_prefs(
        &mut self,
        user_id: Uid,
        prefs_encrypted_blob: &Vec<u8>,
        expected_previous_data_hash: &Vec<u8>,
    ) -> (r: Result<(), DaoError>)
        requires
            old(self).wf(),
        ensures
            final(self).wf(),
            final(self).users == old(self).users,
            final(self).user_keystores == old(self).user_keystores,
            match r {
                Ok(_) => {
                    let i = prefs_at(old(self).user_preferences@, user_id);
                    &&& has_prefs(old(self).user_preferences@, user_id)
                    &&& old(self).user_preferences@[i].encrypted_blob_sha1_hash@
                        == expected_previous_data_hash@
                    &&& final(self).user_preferences@.len() == old(self).user_preferences@.len()
                    &&& final(self).user_preferences@[i].user_id == user_id
                    &&& final(self).user_preferences@[i].encrypted_blob@ == prefs_encrypted_blob@
                    &&& final(self).user_preferences@[i].encrypted_blob_sha1_hash@ == sha1_of(
                        prefs_encrypted_blob@,
                    )
                    &&& forall|j: int|
                        0 <= j < old(self).user_preferences@.len() && j != i ==> final(self).user_preferences@[j] == old(self).user_preferences@[j]
                },
                Err(e) => final(self).user_preferences == old(self).user_preferences && (e
                    == DaoError::NotFound || e == DaoError::OutOfDateHash) && (e
                    == DaoError::NotFound <==> !has_prefs(old(self).user_preferences@, user_id))
                    && (e == DaoError::OutOfDateHash <==> has_prefs(
                    old(self).user_preferences@,
                    user_id,
                ) && old(self).user_preferences@[prefs_at(
                    old(self).user_preferences@,
                    user_id,
                )].encrypted_blob_sha1_hash@ != expected_previous_data_hash@),
            },
    {
        let n = self.user_preferences.len();
        let mut i: usize = 0;
        while i < n
            invariant
                *self == *old(self),
                i <= n,
                forall|j: int|
                    0 <= j < i ==> (#[trigger] self.user_preferences@[j]).user_id != user_id,
            decreases n - i,
        {
            if self.user_preferences[i].user_id == user_id {
                proof {
                    lemma_prefs_at_unique(old(self).user_preferences@, user_id, i as int);
                }
                if !bytes_eq(
                    self.user_preferences[i].encrypted_blob_sha1_hash.as_slice(),
                    expected_previous_data_hash.as_slice(),
                ) {
                    return Err(DaoError::OutOfDateHash);
                }
                let mut row = self.user_preferences.remove(i);
                row.encrypted_blob = clone_bytes(prefs_encrypted_blob);
                row.encrypted_blob_sha1_hash = sha1_hash(prefs_encrypted_blob.as_slice());
                let ghost rowv = row;
                self.user_preferences.insert(i, row);
                proof {
                    assert(self.user_preferences@ =~= old(self).user_preferences@.update(
                        i as int,
                        rowv,
                    ));
                    assert forall|a: int, b: int|
                        0 <= a < b < self.user_preferences@.len() implies (
                    #[trigger] self.user_preferences@[a]).user_id != (
                    #[trigger] self.user_preferences@[b]).user_id by {
                        assert(self.user_preferences@[a] == if a == i {
                            rowv
                        } else {
                            old(self).user_preferences@[a]
                        });
                        assert(self.user_preferences@[b] == if b == i {
                            rowv
                        } else {
                            old(self).user_preferences@[b]
                        });
                    }
                }
                return Ok(());
            }
            i += 1;
        }
        assert(!has_prefs(self.user_preferences@, user_id));
        Err(DaoError::NotFound)
    }

    /// A digest-guarded update of the keystore blob.
    #[verifier::loop_isolation(false)]
    pub fn update_user_keystore(
        &mut self,
        user_id: Uid,
        keystore_encrypted_blob: &Vec<u8>,
        expected_previous_data_hash: &Vec<u8>,
    ) -> (r: Result<(), DaoError>)
        requires
            old(self).wf(),
        ensures
            final(self).wf(),
            final(self).users == old(self).users,
            final(self).user_preferences == old(self).user_preferences,
            match r {
                Ok(_) => {
                    let i = keystore_at(old(self).user_keystores@, user_id);
                    &&& has_keystore(old(self).user_keystores@, user_id)
                    &&& old(self).user_keystores@[i].encrypted_blob_sha1_hash@
                        == expected_previous_data_hash@
                    &&& final(self).user_keystores@.len() == old(self).user_keystores@.len()
                    &&& final(self).user_keystores@[i].user_id == user_id
                    &&& final(self).user_keystores@[i].encrypted_blob@ == keystore_encrypted_blob@
                    &&& final(self).user_keystores@[i].encrypted_blob_sha1_hash@ == sha1_of(
                        keystore_encrypted_blob@,
                    )
                    &&& forall|j: int|
                        0 <= j < old(self).user_keystores@.len() && j != i ==> final(self).user_keystores@[j] == old(self).user_keystores@[j]
                },
                Err(e) => final(self).user_keystores == old(self).user_keystores && (e
                    == DaoError::NotFound || e == DaoError::OutOfDateHash) && (e
                    == DaoError::NotFound <==> !has_keystore(old(self).user_keystores@, user_id))
                    && (e == DaoError::OutOfDateHash <==> has_keystore(
                    old(self).user_keystores@,
                    user_id,
                ) && old(self).user_keystores@[keystore_at(
                    old(self).user_keystores@,
                    user_id,
                )].encrypted_blob_sha1_hash@ != expected_previous_data_hash@),
            },
    {
        let n = self.user_keystores.len();
        let mut i: usize = 0;
        while i < n
            invariant
                *self == *old(self),
                i <= n,
                forall|j: int|
                    0 <= j < i ==> (#[trigger] self.user_keystores@[j]).user_id != user_id,
            decreases n - i,
        {
            if self.user_keystores[i].user_id == user_id {
                proof {
                    lemma_keystore_at_unique(old(self).user_keystores@, user_id, i as int);
                }
                if !bytes_eq(
                    self.user_keystores[i].encrypted_blob_sha1_hash.as_slice(),
                    expected_previous_data_hash.as_slice(),
                ) {
                    return Err(DaoError::OutOfDateHash);
                }
                let mut row = self.user_keystores.remove(i);
                row.encrypted_blob = clone_bytes(keystore_encrypted_blob);
                row.encrypted_blob_sha1_hash = sha1_hash(keystore_encrypted_blob.as_slice());
                let ghost rowv = row;
                self.user_keystores.insert(i, row);
                proof {
                    assert(self.user_keystores@ =~= old(self).user_keystores@.update(
                        i as int,
                        rowv,
                    ));
                    assert forall|a: int, b: int| 0 <= a < b < self.user_keystores@.len() implies (
                    #[trigger] self.user_keystores@[a]).user_id != (
                    #[trigger] self.user_keystores@[b]).user_id by {
                        assert(self.user_keystores@[a] == if a == i {
                            rowv
                        } else {
                            old(self).user_keystores@[a]
                        });
                        assert(self.user_keystores@[b] == if b == i {
                            rowv
                        } else {
                            old(self).user_keystores@[b]
                        });
                    }
                }
                return Ok(());
            }
            i += 1;
        }
        assert(!has_keystore(self.user_keystores@, user_id));
        Err(DaoError::NotFound)
    }

    /// Schedules the account for deletion after the given delay.
    #[verifier::loop_isolation(false)]
    pub fn initiate_user_deletion(&mut self, user_id: Uid, ready_for_deletion_time: u64) -> (r:
        Result<(), DaoError>)
        requires
            old(self).wf(),
        ensures
            final(self).wf(),
            final(self).users == old(self).users,
            match r {
                Ok(_) => !has_deletion_request(old(self).user_deletion_requests@, user_id) && final(self).user_deletion_requests@ == old(self).user_deletion_requests@.push(
                    UserDeletionRequest { user_id, ready_for_deletion_time },
                ),
                Err(e) => e == DaoError::UniquenessViolation && has_deletion_request(
                    old(self).user_deletion_requests@,
                    user_id,
                ) && *final(self) == *old(self),
            },
    {
        let n = self.user_deletion_requests.len();
        let mut i: usize = 0;
        while i < n
            invariant
                *self == *old(self),
                i <= n,
                forall|j: int|
                    0 <= j < i ==> (#[trigger] self.user_deletion_requests@[j]).user_id != user_id,
            decreases n - i,
        {
            if self.user_deletion_requests[i].user_id == user_id {
                return Err(DaoError::UniquenessViolation);
            }
            i += 1;
        }
        assert(!has_deletion_request(self.user_deletion_requests@, user_id));
        self.user_deletion_requests.push(UserDeletionRequest { user_id, ready_for_deletion_time });
        proof {
            assert forall|a: int, b: int|
                0 <= a < b < self.user_deletion_requests@.len() implies (
            #[trigger] self.user_deletion_requests@[a]).user_id != (
            #[trigger] self.user_deletion_requests@[b]).user_id by {
                assert(self.user_deletion_requests@[a] == old(self).user_deletion_requests@[a]);
                if b < old(self).user_deletion_requests@.len() {
                    assert(self.user_deletion_requests@[b] == old(self).user_deletion_requests@[b]);
                }
            }
        }
        Ok(())
    }

    /// Cancels a pending account deletion.
    #[verifier::loop_isolation(false)]
    pub fn cancel_user_deletion(&mut self, user_id: Uid) -> (r: Result<(), DaoError>)
        requires
            old(self).wf(),
        ensures
            final(self).wf(),
            final(self).users == old(self).users,
            r is Ok,
            !has_deletion_request(final(self).user_deletion_requests@, user_id),
            has_deletion_request(old(self).user_deletion_requests@, user_id) ==> final(self).user_deletion_requests@ == old(self).user_deletion_requests@.remove(
                deletion_request_at(old(self).user_deletion_requests@, user_id),
            ),
            !has_deletion_request(old(self).user_deletion_requests@, user_id) ==> final(self).user_deletion_requests@ == old(self).user_deletion_requests@,
    {
        let n = self.user_deletion_requests.len();
        let mut i: usize = 0;
        while i < n
            invariant
                *self == *old(self),
                i <= n,
                forall|j: int|
                    0 <= j < i ==> (#[trigger] self.user_deletion_requests@[j]).user_id != user_id,
            decreases n - i,
        {
            if self.user_deletion_requests[i].user_id == user_id {
                proof {
                    lemma_deletion_request_at_unique(
                        old(self).user_deletion_requests@,
                        user_id,
                        i as int,
                    );
                }
                let _ = self.user_deletion_requests.remove(i);
                proof {
                    let d0 = old(self).user_deletion_requests@;
                    assert(self.user_deletion_requests@ =~= d0.remove(i as int));
                    assert forall|a: int| 0 <= a < self.user_deletion_requests@.len() implies (
                    #[trigger] self.user_deletion_requests@[a]).user_id != user_id by {
                        if a < i {
                            assert(self.user_deletion_requests@[a] == d0[a]);
                        } else {
                            assert(self.user_deletion_requests@[a] == d0[a + 1]);
                            assert(d0[i as int].user_id != d0[a + 1].user_id);
                        }
                    }
                    assert forall|a: int, b: int|
                        0 <= a < b < self.user_deletion_requests@.len() implies (
                    #[trigger] self.user_deletion_requests@[a]).user_id != (
                    #[trigger] self.user_deletion_requests@[b]).user_id by {
                        assert(self.user_deletion_requests@[a] == if a < i {
                            d0[a]
                        } else {
                            d0[a + 1]
                        });
                        assert(self.user_deletion_requests@[b] == if b < i {
                            d0[b]
                        } else {
                            d0[b + 1]
                        });
                    }
                }
                return Ok(());
            }
            i += 1;
        }
        assert(!has_deletion_request(self.user_deletion_requests@, user_id));
        Ok(())
    }

    /// Is the account listed for deletion?
    #[verifier::loop_isolation(false)]
    pub fn check_is_user_listed_for_deletion(&self, user_id: Uid) -> (r: Result<bool, DaoError>)
        ensures
            r == Ok::<bool, DaoError>(has_deletion_request(self.user_deletion_requests@, user_id)),
    {
        let n = self.user_deletion_requests.len();
        let mut i: usize = 0;
        while i < n
            invariant
                i <= n,
                forall|j: int|
                    0 <= j < i ==> (#[trigger] self.user_deletion_requests@[j]).user_id != user_id,
            decreases n - i,
        {
            if self.user_deletion_requests[i].user_id == user_id {
                assert(has_deletion_request(self.user_deletion_requests@, user_id));
                return Ok(true);
            }
            i += 1;
        }
        assert(!has_deletion_request(self.user_deletion_requests@, user_id));
        Ok(false)
    }

    /// The deletion requests whose time has come.
    #[verifier::loop_isolation(false)]
    #[verifier::loop_isolation(false)]
    pub fn get_all_users_ready_for_deletion(&self, now: u64) -> (r: Result<
        Vec<UserDeletionRequest>,
        DaoError,
    >)
        ensures
            match r {
                Ok(rs) => {
                    &&& forall|j: int|
                        0 <= j < rs@.len() ==> (#[trigger] rs@[j]).ready_for_deletion_time < now
                    &&& seq_subset(rs@, self.user_deletion_requests@)
                    &&& sweep_keeps_ready(self.user_deletion_requests@, rs@, now)
                },
                Err(_) => false,
            },
    {
        let n = self.user_deletion_requests.len();
        let mut out: Vec<UserDeletionRequest> = Vec::new();
        let ghost mut src: Seq<int> = Seq::empty();
        let ghost mut pos: Map<int, int> = Map::empty();
        let mut i: usize = 0;
        while i < n
            invariant
                n == self.user_deletion_requests@.len(),
                i <= n,
                src.len() == out@.len(),
                forall|j: int|
                    0 <= j < out@.len() ==> 0 <= #[trigger] src[j] < i && out@[j]
                        == self.user_deletion_requests@[src[j]],
                forall|j: int|
                    0 <= j < out@.len() ==> (#[trigger] out@[j]).ready_for_deletion_time < now,
                forall|k: int|
                    0 <= k < i && (
                    #[trigger] self.user_deletion_requests@[k]).ready_for_deletion_time < now
                        ==> pos.contains_key(k) && 0 <= pos[k] < out@.len() && out@[pos[k]]
                        == self.user_deletion_requests@[k],
            decreases n - i,
        {
            if self.user_deletion_requests[i].ready_for_deletion_time < now {
                let ghost o0 = out@;
                out.push(
                    UserDeletionRequest {
                        user_id: self.user_deletion_requests[i].user_id,
                        ready_for_deletion_time:
                            self.user_deletion_requests[i].ready_for_deletion_time,
                    },
                );
                proof {
                    src = src.push(i as int);
                    pos = pos.insert(i as int, o0.len() as int);
                    assert(out@[o0.len() as int] == self.user_deletion_requests@[i as int]);
                    assert forall|j: int| 0 <= j < out@.len() implies 0 <= #[trigger] src[j] < i
                        + 1 && out@[j] == self.user_deletion_requests@[src[j]] by {
                        if j < o0.len() {
                            assert(out@[j] == o0[j]);
                        }
                    }
                    assert forall|k: int|
                        0 <= k < i + 1 && (
                        #[trigger] self.user_deletion_requests@[k]).ready_for_deletion_time
                            < now implies pos.contains_key(k) && 0 <= pos[k] < out@.len()
                        && out@[pos[k]] == self.user_deletion_requests@[k] by {
                        if k < i {
                            assert(out@[pos[k]] == o0[pos[k]]);
                        }
                    }
                }
            }
            i += 1;
        }
        proof {
            lemma_seq_subset_from_src(out@, self.user_deletion_requests@, src);
            assert forall|k: int|
                0 <= k < self.user_deletion_requests@.len() && (
                #[trigger] self.user_deletion_requests@[k]).ready_for_deletion_time
                    < now implies exists|j: int|
                0 <= j < out@.len() && #[trigger] out@[j] == self.user_deletion_requests@[k] by {
                assert(out@[pos[k]] == self.user_deletion_requests@[k]);
            }
            assert(sweep_keeps_ready(self.user_deletion_requests@, out@, now));
        }
        Ok(out)
    }

    /// Records which capability keys fall with the user when the deletion
    /// runs.
    pub fn save_user_deletion_budget_keys(
        &mut self,
        budget_access_key_ids: &Vec<Uid>,
        user_id: Uid,
        delete_me_time: u64,
    ) -> (r: Result<(), DaoError>)
        requires
            old(self).wf(),
        ensures
            final(self).wf(),
            final(self).users == old(self).users,
            final(self).user_deletion_requests == old(self).user_deletion_requests,
            r is Ok,
            final(self).user_deletion_request_budget_keys@.len() == old(self).user_deletion_request_budget_keys@.len() + budget_access_key_ids@.len(),
            forall|j: int|
                0 <= j < old(self).user_deletion_request_budget_keys@.len() ==> #[trigger] final(self).user_deletion_request_budget_keys@[j] == old(self).user_deletion_request_budget_keys@[j],
            forall|j: int|
                0 <= j < budget_access_key_ids@.len() ==> #[trigger] final(self).user_deletion_request_budget_keys@[old(self).user_deletion_request_budget_keys@.len() + j] == (UserDeletionRequestBudgetKey {
                    key_id: budget_access_key_ids@[j],
                    user_id,
                    delete_me_time,
                }),
    {
        let m = budget_access_key_ids.len();
        let mut k: usize = 0;
        let ghost base = self.user_deletion_request_budget_keys@;
        while k < m
            invariant
                k <= m == budget_access_key_ids@.len(),
                self.users == old(self).users,
                self.user_preferences == old(self).user_preferences,
                self.user_keystores == old(self).user_keystores,
                self.signin_nonces == old(self).signin_nonces,
                self.user_backup_codes == old(self).user_backup_codes,
                self.user_deletion_requests == old(self).user_deletion_requests,
                base == old(self).user_deletion_request_budget_keys@,
                self.user_deletion_request_budget_keys@.len() == base.len() + k,
                forall|j: int|
                    0 <= j < base.len() ==> #[trigger] self.user_deletion_request_budget_keys@[j]
                        == base[j],
                forall|j: int|
                    0 <= j < k ==> #[trigger] self.user_deletion_request_budget_keys@[base.len()
                        + j] == (UserDeletionRequestBudgetKey {
                        key_id: budget_access_key_ids@[j],
                        user_id,
                        delete_me_time,
                    }),
            decreases m - k,
        {
            self.user_deletion_request_budget_keys.push(
                UserDeletionRequestBudgetKey {
                    key_id: budget_access_key_ids[k],
                    user_id,
                    delete_me_time,
                },
            );
            k += 1;
        }
        Ok(())
    }

    /// Sweeps unverified accounts older than the given age.
    #[verifier::loop_isolation(false)]
    #[verifier::rlimit(100)]
    pub fn clear_unverified_users(&mut self, cutoff: u64) -> (r: Result<(), DaoError>)
        requires
            old(self).wf(),
        ensures
            final(self).wf(),
            r is Ok,
            final(self).user_preferences == old(self).user_preferences,
            final(self).user_keystores == old(self).user_keystores,
            final(self).signin_nonces == old(self).signin_nonces,
            final(self).user_backup_codes == old(self).user_backup_codes,
            final(self).user_deletion_requests == old(self).user_deletion_requests,
            final(self).user_deletion_request_budget_keys == old(
                self,
            ).user_deletion_request_budget_keys,
            forall|j: int|
                0 <= j < final(self).users@.len() ==> !((#[trigger] final(self).users@[j]).created_timestamp < cutoff && !final(self).users@[j].is_verified),
            users_subset_by_fields(final(self).users@, old(self).users@),
            users_kept(old(self).users@, final(self).users@, cutoff),
    {
        let ghost users0 = self.users@;
        let n = self.users.len();
        let mut kept: Vec<User> = Vec::new();
        let ghost mut src: Seq<int> = Seq::empty();
        let ghost mut pos: Map<int, int> = Map::empty();
        let mut i: usize = 0;
        while i < n
            invariant
                *self == *old(self),
                n == users0.len(),
                i <= n,
                src.len() == kept@.len(),
                forall|j: int|
                    0 <= j < kept@.len() ==> 0 <= #[trigger] src[j] < i && user_rows_match(
                        kept@[j],
                        users0[src[j]],
                    ),
                forall|j: int|
                    0 <= j < kept@.len() ==> !((#[trigger] kept@[j]).created_timestamp < cutoff
                        && !kept@[j].is_verified),
                forall|k: int|
                    0 <= k < i && !((#[trigger] users0[k]).created_timestamp < cutoff
                        && !users0[k].is_verified) ==> pos.contains_key(k) && 0 <= pos[k]
                        < kept@.len() && user_rows_match(kept@[pos[k]], users0[k]),
                forall|a: int, b: int|
                    0 <= a < b < kept@.len() ==> (#[trigger] kept@[a]).email@ != (
                    #[trigger] kept@[b]).email@ && kept@[a].id != kept@[b].id,
            decreases n - i,
        {
            if !(self.users[i].created_timestamp < cutoff && !self.users[i].is_verified) {
                let ghost k0 = kept@;
                let row = self.users[i].duplicate_row();
                kept.push(row);
                proof {
                    src = src.push(i as int);
                    pos = pos.insert(i as int, k0.len() as int);
                    assert(user_rows_match(kept@[k0.len() as int], users0[i as int]));
                    assert forall|j: int| 0 <= j < kept@.len() implies 0 <= #[trigger] src[j] < i
                        + 1 && user_rows_match(kept@[j], users0[src[j]]) by {
                        if j < k0.len() {
                            assert(kept@[j] == k0[j]);
                        }
                    }
                    assert forall|k: int|
                        0 <= k < i + 1 && !((#[trigger] users0[k]).created_timestamp < cutoff
                            && !users0[k].is_verified) implies pos.contains_key(k) && 0 <= pos[k]
                        < kept@.len() && user_rows_match(kept@[pos[k]], users0[k]) by {
                        if k < i {
                            assert(kept@[pos[k]] == k0[pos[k]]);
                        }
                    }
                    assert forall|a: int, b: int| 0 <= a < b < kept@.len() implies (
                    #[trigger] kept@[a]).email@ != (#[trigger] kept@[b]).email@ && kept@[a].id
                        != kept@[b].id by {
                        if b < k0.len() {
                            assert(kept@[a] == k0[a]);
                            assert(kept@[b] == k0[b]);
                        } else {
                            assert(kept@[a] == k0[a]);
                            assert(user_rows_match(kept@[a], users0[src[a]]));
                            assert(user_rows_match(kept@[b], users0[i as int]));
                            assert(users0[src[a]].email@ != users0[i as int].email@
                                && users0[src[a]].id != users0[i as int].id);
                        }
                    }
                }
            }
            i += 1;
        }
        self.users = kept;
        proof {
            lemma_users_subset_from_src(self.users@, users0, src);
            lemma_users_kept_from_pos(users0, self.users@, cutoff, pos);
        }
        Ok(())
    }

    /// Replaces the password-hash parameters and password-encrypted key of
    /// the account with this email.
    #[verifier::loop_isolation(false)]
    pub fn update_password(
        &mut self,
        user_email: &str,
        new_auth_string_hash: &str,
        new_auth_string_salt: &Vec<u8>,
        new_auth_string_memory_cost_kib: i32,
        new_auth_string_parallelism_factor: i32,
        new_auth_string_iters: i32,
        new_password_encryption_salt: &Vec<u8>,
        new_password_encryption_memory_cost_kib: i32,
        new_password_encryption_parallelism_factor: i32,
        new_password_encryption_iters: i32,
        encrypted_encryption_key: &Vec<u8>,
    ) -> (r: Result<(), DaoError>)
        requires
            old(self).wf(),
        ensures
            final(self).wf(),
            r is Ok,
            final(self).users@.len() == old(self).users@.len(),
            forall|j: int|
                0 <= j < old(self).users@.len() && (#[trigger] old(self).users@[j]).email@
                    != user_email@ ==> final(self).users@[j] == old(self).users@[j],
            has_user_email(old(self).users@, user_email@) ==> {
                let i = user_email_at(old(self).users@, user_email@);
                &&& final(self).users@[i].auth_string_hash@ == new_auth_string_hash@
                &&& final(self).users@[i].auth_string_salt@ == new_auth_string_salt@
                &&& final(self).users@[i].encryption_key_encrypted_with_password@
                    == encrypted_encryption_key@
                &&& final(self).users@[i].email@ == old(self).users@[i].email@
                &&& final(self).users@[i].id == old(self).users@[i].id
            },
    {
        let n = self.users.len();
        let mut i: usize = 0;
        while i < n
            invariant
                *self == *old(self),
                i <= n,
                forall|j: int| 0 <= j < i ==> (#[trigger] self.users@[j]).email@ != user_email@,
            decreases n - i,
        {
            if str_eq(self.users[i].email.as_str(), user_email) {
                proof {
                    lemma_user_email_at_unique(old(self).users@, user_email@, i as int);
                }
                let mut row = self.users.remove(i);
                row.auth_string_hash = new_auth_string_hash.to_owned();
                row.auth_string_salt = clone_bytes(new_auth_string_salt);
                row.auth_string_memory_cost_kib = new_auth_string_memory_cost_kib;
                row.auth_string_parallelism_factor = new_auth_string_parallelism_factor;
                row.auth_string_iters = new_auth_string_iters;
                row.password_encryption_salt = clone_bytes(new_password_encryption_salt);
                row.password_encryption_memory_cost_kib = new_password_encryption_memory_cost_kib;
                row.password_encryption_parallelism_factor =
                    new_password_encryption_parallelism_factor;
                row.password_encryption_iters = new_password_encryption_iters;
                row.encryption_key_encrypted_with_password = clone_bytes(
                    encrypted_encryption_key,
                );
                let ghost rowv = row;
                self.users.insert(i, row);
                proof {
                    assert(self.users@ =~= old(self).users@.update(i as int, rowv));
                    assert forall|a: int, b: int| 0 <= a < b < self.users@.len() implies (
                    #[trigger] self.users@[a]).email@ != (#[trigger] self.users@[b]).email@
                        && self.users@[a].id != self.users@[b].id by {
                        assert(self.users@[a] == if a == i {
                            rowv
                        } else {
                            old(self).users@[a]
                        });
                        assert(self.users@[b] == if b == i {
                            rowv
                        } else {
                            old(self).users@[b]
                        });
                    }
                }
                return Ok(());
            }
            i += 1;
        }
        assert(!has_user_email(self.users@, user_email@));
        Ok(())
    }

    /// Replaces the recovery-key parameters and recovery-encrypted key of
    /// the account.
    #[verifier::loop_isolation(false)]
    pub fn update_recovery_key(
        &mut self,
        user_id: Uid,
        new_recovery_key_salt: &Vec<u8>,
        new_recovery_key_memory_cost_kib: i32,
        new_recovery_key_parallelism_factor: i32,
        new_recovery_key_iters: i32,
        encrypted_encryption_key: &Vec<u8>,
    ) -> (r: Result<(), DaoError>)
        requires
            old(self).wf(),
        ensures
            final(self).wf(),
            r is Ok,
            final(self).users@.len() == old(self).users@.len(),
            forall|j: int|
                0 <= j < old(self).users@.len() && (#[trigger] old(self).users@[j]).id != user_id
                    ==> final(self).users@[j] == old(self).users@[j],
            has_user_id(old(self).users@, user_id) ==> {
                let i = user_id_at(old(self).users@, user_id);
                &&& final(self).users@[i].recovery_key_salt@ == new_recovery_key_salt@
                &&& final(self).users@[i].encryption_key_encrypted_with_recovery_key@
                    == encrypted_encryption_key@
                &&& final(self).users@[i].email@ == old(self).users@[i].email@
                &&& final(self).users@[i].id == user_id
            },
    {
        let n = self.users.len();
        let mut i: usize = 0;
        while i < n
            invariant
                *self == *old(self),
                i <= n,
                forall|j: int| 0 <= j < i ==> (#[trigger] self.users@[j]).id != user_id,
            decreases n - i,
        {
            if self.users[i].id == user_id {
                proof {
                    lemma_user_id_at_unique(old(self).users@, user_id, i as int);
                }
                let mut row = self.users.remove(i);
                row.recovery_key_salt = clone_bytes(new_recovery_key_salt);
                row.recovery_key_memory_cost_kib = new_recovery_key_memory_cost_kib;
                row.recovery_key_parallelism_factor = new_recovery_key_parallelism_factor;
                row.recovery_key_iters = new_recovery_key_iters;
                row.encryption_key_encrypted_with_recovery_key = clone_bytes(
                    encrypted_encryption_key,
                );
                let ghost rowv = row;
                self.users.insert(i, row);
                proof {
                    assert(self.users@ =~= old(self).users@.update(i as int, rowv));
                    assert forall|a: int, b: int| 0 <= a < b < self.users@.len() implies (
                    #[trigger] self.users@[a]).email@ != (#[trigger] self.users@[b]).email@
                        && self.users@[a].id != self.users@[b].id by {
                        assert(self.users@[a] == if a == i {
                            rowv
                        } else {
                            old(self).users@[a]
                        });
                        assert(self.users@[b] == if b == i {
                            rowv
                        } else {
                            old(self).users@[b]
                        });
                    }
                }
                return Ok(());
            }
            i += 1;
        }
        assert(!has_user_id(self.users@, user_id));
        Ok(())
    }

    /// Deletes a user, with the revocation cascade of one transaction: every
    /// capability key recorded in the user's deletion-request rows falls,
    /// budgets thereby left without any key fall with them, every other key
    /// and budget survives unchanged, and the user row goes.
    #[verifier::loop_isolation(false)]
    #[verifier::rlimit(100)]
    pub fn delete_user(
        &mut self,
        user_id: Uid,
        budget_dao: &mut crate::budget_store::Dao,
    ) -> (r: Result<(), DaoError>)
        requires
            old(self).wf(),
            old(budget_dao)@.wf(),
        ensures
            final(self).wf(),
            final(budget_dao)@.wf(),
            r is Ok,
            !has_user_id(final(self).users@, user_id),
            forall|j: int|
                0 <= j < final(self).user_deletion_request_budget_keys@.len() ==> (#[trigger] final(self).user_deletion_request_budget_keys@[j]).user_id != user_id,
            final(self).user_preferences == old(self).user_preferences,
            final(self).user_keystores == old(self).user_keystores,
            final(self).signin_nonces == old(self).signin_nonces,
            final(self).user_backup_codes == old(self).user_backup_codes,
            final(self).user_deletion_requests == old(self).user_deletion_requests,
            final(budget_dao)@.accept_keys == old(budget_dao)@.accept_keys,
            final(budget_dao)@.invites == old(budget_dao)@.invites,
            final(budget_dao)@.entries == old(budget_dao)@.entries,
            final(budget_dao)@.categories == old(budget_dao)@.categories,
            forall|kid: Uid|
                #[trigger] is_listed_key(
                    old(self).user_deletion_request_budget_keys@,
                    user_id,
                    kid,
                ) ==> !has_access_key_id(final(budget_dao)@.access_keys, kid),
            forall|j: int|
                0 <= j < old(budget_dao)@.access_keys.len() && !is_listed_key(
                    old(self).user_deletion_request_budget_keys@,
                    user_id,
                    (#[trigger] old(budget_dao)@.access_keys[j]).key_id,
                ) ==> has_access_key_id(
                    final(budget_dao)@.access_keys,
                    old(budget_dao)@.access_keys[j].key_id,
                ) && final(budget_dao)@.access_keys[access_key_id_at(
                    final(budget_dao)@.access_keys,
                    old(budget_dao)@.access_keys[j].key_id,
                )] == old(budget_dao)@.access_keys[j],
            forall|i: int|
                0 <= i < old(budget_dao)@.budgets.len() && budget_has_keys(
                    final(budget_dao)@.access_keys,
                    (#[trigger] old(budget_dao)@.budgets[i]).id,
                ) ==> has_budget(final(budget_dao)@.budgets, old(budget_dao)@.budgets[i].id),
            forall|i: int|
                0 <= i < old(budget_dao)@.budgets.len() && !spec_deletion_touches(
                    old(self).user_deletion_request_budget_keys@,
                    old(budget_dao)@.access_keys,
                    user_id,
                    (#[trigger] old(budget_dao)@.budgets[i]).id,
                ) ==> has_budget(final(budget_dao)@.budgets, old(budget_dao)@.budgets[i].id),
            forall|i: int|
                0 <= i < old(budget_dao)@.budgets.len() && spec_deletion_touches(
                    old(self).user_deletion_request_budget_keys@,
                    old(budget_dao)@.access_keys,
                    user_id,
                    (#[trigger] old(budget_dao)@.budgets[i]).id,
                ) && !budget_has_keys(
                    final(budget_dao)@.access_keys,
                    old(budget_dao)@.budgets[i].id,
                ) ==> !has_budget(final(budget_dao)@.budgets, old(budget_dao)@.budgets[i].id),
    {
        let ghost udrbk0 = self.user_deletion_request_budget_keys@;
        let ghost keys0 = budget_dao@.access_keys;
        let ghost budgets0 = budget_dao@.budgets;
        // Collect the key identifiers listed for this user; keep the rest.
        // `lmap` remembers where each matching request row landed in `listed`.
        let mut listed: Vec<Uid> = Vec::new();
        let mut remaining: Vec<UserDeletionRequestBudgetKey> = Vec::new();
        let ghost mut lmap: Map<int, int> = Map::empty();
        let n = self.user_deletion_request_budget_keys.len();
        let mut i: usize = 0;
        while i < n
            invariant
                n == self.user_deletion_request_budget_keys@.len(),
                *self == *old(self),
                i <= n,
                forall|j: int|
                    0 <= j < remaining@.len() ==> (#[trigger] remaining@[j]).user_id != user_id,
                forall|a: int|
                    0 <= a < listed@.len() ==> is_listed_key(
                        udrbk0,
                        user_id,
                        #[trigger] listed@[a],
                    ),
                forall|kk: int|
                    0 <= kk < i && (#[trigger] udrbk0[kk]).user_id == user_id ==> lmap.contains_key(
                        kk,
                    ) && 0 <= lmap[kk] < listed@.len() && listed@[lmap[kk]] == udrbk0[kk].key_id,
            decreases n - i,
        {
            let row_user = self.user_deletion_request_budget_keys[i].user_id;
            let row_key = self.user_deletion_request_budget_keys[i].key_id;
            let row_time = self.user_deletion_request_budget_keys[i].delete_me_time;
            if row_user == user_id {
                let ghost l0 = listed@;
                listed.push(row_key);
                proof {
                    lmap = lmap.insert(i as int, l0.len() as int);
                    assert(listed@[l0.len() as int] == udrbk0[i as int].key_id);
                    assert(udrbk0[i as int].user_id == user_id);
                    assert(is_listed_key(udrbk0, user_id, udrbk0[i as int].key_id));
                    assert forall|a: int| 0 <= a < listed@.len() implies is_listed_key(
                        udrbk0,
                        user_id,
                        #[trigger] listed@[a],
                    ) by {
                        if a < l0.len() {
                            assert(listed@[a] == l0[a]);
                        }
                    }
                    assert forall|kk: int|
                        0 <= kk < i + 1 && (#[trigger] udrbk0[kk]).user_id
                            == user_id implies lmap.contains_key(kk) && 0 <= lmap[kk]
                        < listed@.len() && listed@[lmap[kk]] == udrbk0[kk].key_id by {
                        if kk < i {
                            assert(listed@[lmap[kk]] == l0[lmap[kk]]);
                        }
                    }
                }
            } else {
                remaining.push(
                    UserDeletionRequestBudgetKey {
                        key_id: row_key,
                        user_id: row_user,
                        delete_me_time: row_time,
                    },
                );
            }
            i += 1;
        }
        self.user_deletion_request_budget_keys = remaining;
        // Rebuild the capability key table without the listed keys.  `src`
        // maps each kept row to its old index, `kpos` each surviving old
        // index to its place, `tsrc`/`tpos` track which budgets lost a key.
        let mut kept_keys: Vec<BudgetAccessKey> = Vec::new();
        let mut touched_budgets: Vec<Uid> = Vec::new();
        let ghost mut src: Seq<int> = Seq::empty();
        let ghost mut kpos: Map<int, int> = Map::empty();
        let ghost mut tsrc: Seq<int> = Seq::empty();
        let ghost mut tpos: Map<int, int> = Map::empty();
        let m = budget_dao.access_keys.len();
        let mut k: usize = 0;
        while k < m
            invariant
                m == budget_dao.access_keys@.len(),
                budget_dao@.access_keys == keys0,
                budget_dao@.budgets == budgets0,
                k <= m,
                src.len() == kept_keys@.len(),
                forall|a: int|
                    0 <= a < kept_keys@.len() ==> 0 <= #[trigger] src[a] < k && kept_keys@[a]@
                        == keys0[src[a]] && !listed@.contains(keys0[src[a]].key_id),
                forall|a: int, b: int| 0 <= a < b < src.len() ==> #[trigger] src[a] < #[trigger] src[b],
                forall|j0: int|
                    0 <= j0 < k && !listed@.contains((#[trigger] keys0[j0]).key_id)
                        ==> kpos.contains_key(j0) && 0 <= kpos[j0] < kept_keys@.len()
                        && kept_keys@[kpos[j0]]@ == keys0[j0],
                tsrc.len() == touched_budgets@.len(),
                forall|x: int|
                    0 <= x < touched_budgets@.len() ==> 0 <= #[trigger] tsrc[x] < k
                        && listed@.contains(keys0[tsrc[x]].key_id) && keys0[tsrc[x]].budget_id
                        == touched_budgets@[x],
                forall|j0: int|
                    0 <= j0 < k && listed@.contains((#[trigger] keys0[j0]).key_id)
                        ==> tpos.contains_key(j0) && 0 <= tpos[j0] < touched_budgets@.len()
                        && touched_budgets@[tpos[j0]] == keys0[j0].budget_id,
            decreases m - k,
        {
            let kid = budget_dao.access_keys[k].key_id;
            if uid_listed(&listed, kid) {
                let ghost t0 = touched_budgets@;
                touched_budgets.push(budget_dao.access_keys[k].budget_id);
                proof {
                    tsrc = tsrc.push(k as int);
                    tpos = tpos.insert(k as int, t0.len() as int);
                    assert(touched_budgets@[t0.len() as int] == keys0[k as int].budget_id);
                    assert forall|x: int| 0 <= x < touched_budgets@.len() implies 0
                        <= #[trigger] tsrc[x] < k + 1 && listed@.contains(keys0[tsrc[x]].key_id)
                        && keys0[tsrc[x]].budget_id == touched_budgets@[x] by {
                        if x < t0.len() {
                            assert(touched_budgets@[x] == t0[x]);
                        }
                    }
                    assert forall|j0: int|
                        0 <= j0 < k + 1 && listed@.contains(
                            (#[trigger] keys0[j0]).key_id,
                        ) implies tpos.contains_key(j0) && 0 <= tpos[j0] < touched_budgets@.len()
                        && touched_budgets@[tpos[j0]] == keys0[j0].budget_id by {
                        if j0 < k {
                            assert(touched_budgets@[tpos[j0]] == t0[tpos[j0]]);
                        }
                    }
                }
            } else {
                let ghost kk0 = kept_keys@;
                kept_keys.push(budget_dao.access_keys[k].duplicate());
                proof {
                    src = src.push(k as int);
                    kpos = kpos.insert(k as int, kk0.len() as int);
                    assert(kept_keys@[kk0.len() as int]@ == keys0[k as int]);
                    assert forall|a: int| 0 <= a < kept_keys@.len() implies 0 <= #[trigger] src[a]
                        < k + 1 && kept_keys@[a]@ == keys0[src[a]] && !listed@.contains(
                        keys0[src[a]].key_id,
                    ) by {
                        if a < kk0.len() {
                            assert(kept_keys@[a] == kk0[a]);
                        }
                    }
                    assert forall|j0: int|
                        0 <= j0 < k + 1 && !listed@.contains(
                            (#[trigger] keys0[j0]).key_id,
                        ) implies kpos.contains_key(j0) && 0 <= kpos[j0] < kept_keys@.len()
                        && kept_keys@[kpos[j0]]@ == keys0[j0] by {
                        if j0 < k {
                            assert(kept_keys@[kpos[j0]] == kk0[kpos[j0]]);
                        }
                    }
                }
            }
            k += 1;
        }
        budget_dao.access_keys = kept_keys;
        let ghost keys1 = budget_dao@.access_keys;
        proof {
            assert forall|a: int| 0 <= a < keys1.len() implies #[trigger] keys1[a] == keys0[src[a]]
                && !listed@.contains(keys0[src[a]].key_id) by {
                assert(keys1[a] == kept_keys@[a]@);
            }
            assert forall|a: int, b: int| 0 <= a < b < keys1.len() implies (
            #[trigger] keys1[a]).key_id != (#[trigger] keys1[b]).key_id by {
                assert(keys1[a] == keys0[src[a]]);
                assert(keys1[b] == keys0[src[b]]);
                assert(src[a] < src[b]);
                assert(keys0[src[a]].key_id != keys0[src[b]].key_id);
            }
        }
        // Rebuild the budget table: a budget survives iff it still has a key
        // or was never touched by the deletion.
        let mut kept_budgets: Vec<crate::models::Budget> = Vec::new();
        let ghost mut bsrc: Seq<int> = Seq::empty();
        let ghost mut bpos: Map<int, int> = Map::empty();
        let bn = budget_dao.budgets.len();
        let mut k: usize = 0;
        while k < bn
            invariant
                bn == budget_dao.budgets@.len(),
                budget_dao@.budgets == budgets0,
                budget_dao@.access_keys == keys1,
                k <= bn,
                bsrc.len() == kept_budgets@.len(),
                forall|a: int|
                    0 <= a < kept_budgets@.len() ==> 0 <= #[trigger] bsrc[a] < k && kept_budgets@[
                        a]@ == budgets0[bsrc[a]] && (budget_has_keys(
                        keys1,
                        budgets0[bsrc[a]].id,
                    ) || !touched_budgets@.contains(budgets0[bsrc[a]].id)),
                forall|a: int, b: int| 0 <= a < b < bsrc.len() ==> #[trigger] bsrc[a] < #[trigger] bsrc[b],
                forall|i0: int|
                    0 <= i0 < k && (budget_has_keys(keys1, (#[trigger] budgets0[i0]).id)
                        || !touched_budgets@.contains(budgets0[i0].id)) ==> bpos.contains_key(i0)
                        && 0 <= bpos[i0] < kept_budgets@.len() && kept_budgets@[bpos[i0]]@
                        == budgets0[i0],
            decreases bn - k,
        {
            let bid = budget_dao.budgets[k].id;
            let keep = has_key_for_budget(&budget_dao.access_keys, bid) || !uid_listed(
                &touched_budgets,
                bid,
            );
            if keep {
                let ghost kb0 = kept_budgets@;
                kept_budgets.push(budget_dao.budgets[k].duplicate());
                proof {
                    bsrc = bsrc.push(k as int);
                    bpos = bpos.insert(k as int, kb0.len() as int);
                    assert(kept_budgets@[kb0.len() as int]@ == budgets0[k as int]);
                    assert forall|a: int| 0 <= a < kept_budgets@.len() implies 0
                        <= #[trigger] bsrc[a] < k + 1 && kept_budgets@[a]@ == budgets0[bsrc[a]] && (
                    budget_has_keys(keys1, budgets0[bsrc[a]].id) || !touched_budgets@.contains(
                        budgets0[bsrc[a]].id,
                    )) by {
                        if a < kb0.len() {
                            assert(kept_budgets@[a] == kb0[a]);
                        }
                    }
                    assert forall|i0: int|
                        0 <= i0 < k + 1 && (budget_has_keys(keys1, (#[trigger] budgets0[i0]).id)
                            || !touched_budgets@.contains(budgets0[i0].id)) implies bpos.contains_key(
                        i0,
                    ) && 0 <= bpos[i0] < kept_budgets@.len() && kept_budgets@[bpos[i0]]@
                        == budgets0[i0] by {
                        if i0 < k {
                            assert(kept_budgets@[bpos[i0]] == kb0[bpos[i0]]);
                        }
                    }
                }
            }
            k += 1;
        }
        budget_dao.budgets = kept_budgets;
        proof {
            let s1 = budget_dao@;
            assert(s1.access_keys == keys1);
            assert forall|a: int| 0 <= a < s1.budgets.len() implies #[trigger] s1.budgets[a]
                == budgets0[bsrc[a]] && (budget_has_keys(keys1, budgets0[bsrc[a]].id)
                || !touched_budgets@.contains(budgets0[bsrc[a]].id)) by {
                assert(s1.budgets[a] == kept_budgets@[a]@);
            }
            assert forall|a: int, b: int| 0 <= a < b < s1.budgets.len() implies (
            #[trigger] s1.budgets[a]).id != (#[trigger] s1.budgets[b]).id by {
                assert(s1.budgets[a] == budgets0[bsrc[a]]);
                assert(s1.budgets[b] == budgets0[bsrc[b]]);
                assert(bsrc[a] < bsrc[b]);
                assert(budgets0[bsrc[a]].id != budgets0[bsrc[b]].id);
            }
            assert forall|a: int, b: int|
                0 <= a < s1.accept_keys.len() && 0 <= b < s1.access_keys.len() implies (
            #[trigger] s1.accept_keys[a]).key_id != (#[trigger] s1.access_keys[b]).key_id by {
                assert(s1.access_keys[b] == keys0[src[b]]);
                assert(s1.accept_keys[a] == old(budget_dao)@.accept_keys[a]);
                assert(old(budget_dao)@.accept_keys[a].key_id != keys0[src[b]].key_id);
            }
            assert(s1.accept_keys =~= old(budget_dao)@.accept_keys);
            assert(s1.invites =~= old(budget_dao)@.invites);
            assert(s1.entries =~= old(budget_dao)@.entries);
            assert(s1.categories =~= old(budget_dao)@.categories);
            assert forall|a: int, b: int| 0 <= a < b < s1.accept_keys.len() implies (
            #[trigger] s1.accept_keys[a]).key_id != (#[trigger] s1.accept_keys[b]).key_id by {
                assert(s1.accept_keys[a] == old(budget_dao)@.accept_keys[a]);
                assert(s1.accept_keys[b] == old(budget_dao)@.accept_keys[b]);
            }
            assert forall|a: int, b: int| 0 <= a < b < s1.invites.len() implies (
            #[trigger] s1.invites[a]).id != (#[trigger] s1.invites[b]).id by {
                assert(s1.invites[a] == old(budget_dao)@.invites[a]);
                assert(s1.invites[b] == old(budget_dao)@.invites[b]);
            }
            assert forall|a: int, b: int| 0 <= a < b < s1.entries.len() implies (
            #[trigger] s1.entries[a]).id != (#[trigger] s1.entries[b]).id by {
                assert(s1.entries[a] == old(budget_dao)@.entries[a]);
                assert(s1.entries[b] == old(budget_dao)@.entries[b]);
            }
            assert forall|a: int, b: int| 0 <= a < b < s1.categories.len() implies (
            #[trigger] s1.categories[a]).id != (#[trigger] s1.categories[b]).id by {
                assert(s1.categories[a] == old(budget_dao)@.categories[a]);
                assert(s1.categories[b] == old(budget_dao)@.categories[b]);
            }
            assert(s1.wf());
            // Every key listed for the user is gone.
            assert forall|kid: Uid|
                #[trigger] is_listed_key(udrbk0, user_id, kid) implies !has_access_key_id(
                s1.access_keys,
                kid,
            ) by {
                let kk = choose|kk: int|
                    0 <= kk < udrbk0.len() && (#[trigger] udrbk0[kk]).user_id == user_id
                        && udrbk0[kk].key_id == kid;
                assert(listed@[lmap[kk]] == kid);
                assert(listed@.contains(kid));
                assert forall|a: int| 0 <= a < s1.access_keys.len() implies (
                #[trigger] s1.access_keys[a]).key_id != kid by {
                    assert(s1.access_keys[a] == keys0[src[a]]);
                    assert(!listed@.contains(keys0[src[a]].key_id));
                }
            }
            // Every other key survives at its unique place.
            assert forall|j0: int|
                0 <= j0 < keys0.len() && !is_listed_key(
                    udrbk0,
                    user_id,
                    (#[trigger] keys0[j0]).key_id,
                ) implies has_access_key_id(s1.access_keys, keys0[j0].key_id) && s1.access_keys[
                access_key_id_at(s1.access_keys, keys0[j0].key_id)] == keys0[j0] by {
                assert(!listed@.contains(keys0[j0].key_id)) by {
                    if listed@.contains(keys0[j0].key_id) {
                        let la = choose|la: int|
                            0 <= la < listed@.len() && listed@[la] == keys0[j0].key_id;
                        assert(is_listed_key(udrbk0, user_id, listed@[la]));
                    }
                }
                let a = kpos[j0];
                assert(s1.access_keys[a] == keys0[j0]);
                assert(has_access_key_id(s1.access_keys, keys0[j0].key_id));
                let c = access_key_id_at(s1.access_keys, keys0[j0].key_id);
                if c != a {
                    if c < a {
                        assert(s1.access_keys[c].key_id != s1.access_keys[a].key_id);
                    } else {
                        assert(s1.access_keys[a].key_id != s1.access_keys[c].key_id);
                    }
                }
            }
            // Budgets with a remaining key survive; untouched budgets survive.
            assert forall|i0: int|
                0 <= i0 < budgets0.len() && (budget_has_keys(
                    keys1,
                    (#[trigger] budgets0[i0]).id,
                ) || !touched_budgets@.contains(budgets0[i0].id)) implies has_budget(
                s1.budgets,
                budgets0[i0].id,
            ) by {
                let a = bpos[i0];
                assert(s1.budgets[a] == budgets0[i0]);
            }
            assert forall|i0: int|
                0 <= i0 < budgets0.len() && !spec_deletion_touches(
                    udrbk0,
                    keys0,
                    user_id,
                    (#[trigger] budgets0[i0]).id,
                ) implies has_budget(s1.budgets, budgets0[i0].id) by {
                assert(!touched_budgets@.contains(budgets0[i0].id)) by {
                    if touched_budgets@.contains(budgets0[i0].id) {
                        let x = choose|x: int|
                            0 <= x < touched_budgets@.len() && touched_budgets@[x] == budgets0[
                            i0].id;
                        let j0 = tsrc[x];
                        assert(listed@.contains(keys0[j0].key_id));
                        let la = choose|la: int|
                            0 <= la < listed@.len() && listed@[la] == keys0[j0].key_id;
                        assert(is_listed_key(udrbk0, user_id, listed@[la]));
                        let kk = choose|kk: int|
                            0 <= kk < udrbk0.len() && (#[trigger] udrbk0[kk]).user_id == user_id
                                && udrbk0[kk].key_id == keys0[j0].key_id;
                        assert(has_access_key_id(keys0, udrbk0[kk].key_id));
                        let c = access_key_id_at(keys0, udrbk0[kk].key_id);
                        if c != j0 {
                            if c < j0 {
                                assert(keys0[c].key_id != keys0[j0].key_id);
                            } else {
                                assert(keys0[j0].key_id != keys0[c].key_id);
                            }
                        }
                        assert(keys0[c].budget_id == budgets0[i0].id);
                        assert(spec_deletion_touches(udrbk0, keys0, user_id, budgets0[i0].id));
                    }
                }
                let a = bpos[i0];
                assert(s1.budgets[a] == budgets0[i0]);
            }
            // A touched budget left without keys is gone.
            assert forall|i0: int|
                0 <= i0 < budgets0.len() && spec_deletion_touches(
                    udrbk0,
                    keys0,
                    user_id,
                    (#[trigger] budgets0[i0]).id,
                ) && !budget_has_keys(keys1, budgets0[i0].id) implies !has_budget(
                s1.budgets,
                budgets0[i0].id,
            ) by {
                let kk = choose|kk: int|
                    {
                        &&& 0 <= kk < udrbk0.len()
                        &&& (#[trigger] udrbk0[kk]).user_id == user_id
                        &&& has_access_key_id(keys0, udrbk0[kk].key_id)
                        &&& keys0[access_key_id_at(keys0, udrbk0[kk].key_id)].budget_id
                            == budgets0[i0].id
                    };
                let j0 = access_key_id_at(keys0, udrbk0[kk].key_id);
                assert(0 <= j0 < keys0.len() && keys0[j0].key_id == udrbk0[kk].key_id) by {
                    let w = choose|w: int|
                        0 <= w < keys0.len() && (#[trigger] keys0[w]).key_id == udrbk0[kk].key_id;
                }
                assert(listed@[lmap[kk]] == udrbk0[kk].key_id);
                assert(listed@.contains(keys0[j0].key_id));
                assert(touched_budgets@[tpos[j0]] == budgets0[i0].id);
                assert(touched_budgets@.contains(budgets0[i0].id));
                assert forall|a: int| 0 <= a < s1.budgets.len() implies (
                #[trigger] s1.budgets[a]).id != budgets0[i0].id by {
                    assert(s1.budgets[a] == budgets0[bsrc[a]]);
                    if budgets0[bsrc[a]].id == budgets0[i0].id {
                        if bsrc[a] < i0 {
                            assert(budgets0[bsrc[a]].id != budgets0[i0].id);
                        } else if bsrc[a] > i0 {
                            assert(budgets0[i0].id != budgets0[bsrc[a]].id);
                        }
                    }
                }
            }
        }
        // Delete the user row itself.
        let ghost mid = *self;
        let un = self.users.len();
        let mut i: usize = 0;
        while i < un
            invariant
                *self == mid,
                un == self.users@.len(),
                unique_users(self.users@),
                unique_prefs(self.user_preferences@),
                unique_keystores(self.user_keystores@),
                unique_deletion_requests(self.user_deletion_requests@),
                forall|j: int|
                    0 <= j < self.user_deletion_request_budget_keys@.len() ==> (
                    #[trigger] self.user_deletion_request_budget_keys@[j]).user_id != user_id,
                i <= un,
                forall|j: int| 0 <= j < i ==> (#[trigger] self.users@[j]).id != user_id,
            decreases un - i,
        {
            if self.users[i].id == user_id {
                let ghost u0 = self.users@;
                let _ = self.users.remove(i);
                proof {
                    assert(self.users@ =~= u0.remove(i as int));
                    assert(u0[i as int].id == user_id);
                    assert forall|a: int| 0 <= a < self.users@.len() implies (
                    #[trigger] self.users@[a]).id != user_id by {
                        if a < i {
                            assert(self.users@[a] == u0[a]);
                        } else {
                            assert(self.users@[a] == u0[a + 1]);
                            assert(u0[i as int].email@ != u0[a + 1].email@ && u0[i as int].id
                                != u0[a + 1].id);
                        }
                    }
                    assert forall|a: int, b: int| 0 <= a < b < self.users@.len() implies (
                    #[trigger] self.users@[a]).email@ != (#[trigger] self.users@[b]).email@
                        && self.users@[a].id != self.users@[b].id by {
                        assert(self.users@[a] == if a < i {
                            u0[a]
                        } else {
                            u0[a + 1]
                        });
                        assert(self.users@[b] == if b < i {
                            u0[b]
                        } else {
                            u0[b + 1]
                        });
                    }
                }
                return Ok(());
            }
            i += 1;
        }
        assert(!has_user_id(self.users@, user_id));
        Ok(())
    }

    /// Sweeps deletion-request bookkeeping whose time has passed.
    #[verifier::loop_isolation(false)]
    pub fn delete_old_user_deletion_requests(&mut self, now: u64) -> (r: Result<(), DaoError>)
        requires
            old(self).wf(),
        ensures
            final(self).wf(),
            r is Ok,
            final(self).users == old(self).users,
            final(self).user_preferences == old(self).user_preferences,
            final(self).user_keystores == old(self).user_keystores,
            final(self).signin_nonces == old(self).signin_nonces,
            final(self).user_backup_codes == old(self).user_backup_codes,
            final(self).user_deletion_requests == old(self).user_deletion_requests,
            forall|j: int|
                0 <= j < final(self).user_deletion_request_budget_keys@.len() ==> (#[trigger] final(self).user_deletion_request_budget_keys@[j]).delete_me_time > now,
            seq_subset(
                final(self).user_deletion_request_budget_keys@,
                old(self).user_deletion_request_budget_keys@,
            ),
            sweep_keeps_undue(
                old(self).user_deletion_request_budget_keys@,
                final(self).user_deletion_request_budget_keys@,
                now,
            ),
    {
        let ghost rows0 = self.user_deletion_request_budget_keys@;
        let n = self.user_deletion_request_budget_keys.len();
        let mut kept: Vec<UserDeletionRequestBudgetKey> = Vec::new();
        let ghost mut src: Seq<int> = Seq::empty();
        let ghost mut pos: Map<int, int> = Map::empty();
        let mut i: usize = 0;
        while i < n
            invariant
                *self == *old(self),
                n == rows0.len(),
                i <= n,
                src.len() == kept@.len(),
                forall|j: int|
                    0 <= j < kept@.len() ==> 0 <= #[trigger] src[j] < i && kept@[j]
                        == rows0[src[j]],
                forall|j: int|
                    0 <= j < kept@.len() ==> (#[trigger] kept@[j]).delete_me_time > now,
                forall|k: int|
                    0 <= k < i && (#[trigger] rows0[k]).delete_me_time > now ==> pos.contains_key(
                        k,
                    ) && 0 <= pos[k] < kept@.len() && kept@[pos[k]] == rows0[k],
            decreases n - i,
        {
            if self.user_deletion_request_budget_keys[i].delete_me_time > now {
                let ghost k0 = kept@;
                kept.push(
                    UserDeletionRequestBudgetKey {
                        key_id: self.user_deletion_request_budget_keys[i].key_id,
                        user_id: self.user_deletion_request_budget_keys[i].user_id,
                        delete_me_time: self.user_deletion_request_budget_keys[i].delete_me_time,
                    },
                );
                proof {
                    src = src.push(i as int);
                    pos = pos.insert(i as int, k0.len() as int);
                    assert(kept@[k0.len() as int] == rows0[i as int]);
                    assert forall|j: int| 0 <= j < kept@.len() implies 0 <= #[trigger] src[j] < i
                        + 1 && kept@[j] == rows0[src[j]] by {
                        if j < k0.len() {
                            assert(kept@[j] == k0[j]);
                        }
                    }
                    assert forall|k: int|
                        0 <= k < i + 1 && (#[trigger] rows0[k]).delete_me_time
                            > now implies pos.contains_key(k) && 0 <= pos[k] < kept@.len()
                        && kept@[pos[k]] == rows0[k] by {
                        if k < i {
                            assert(kept@[pos[k]] == k0[pos[k]]);
                        }
                    }
                }
            }
            i += 1;
        }
        self.user_deletion_request_budget_keys = kept;
        proof {
            assert(rows0 == old(self).user_deletion_request_budget_keys@);
            lemma_seq_subset_from_src(self.user_deletion_request_budget_keys@, rows0, src);
            assert forall|k: int|
                0 <= k < rows0.len() && (#[trigger] rows0[k]).delete_me_time > now implies exists|
                j: int,
            |
                0 <= j < self.user_deletion_request_budget_keys@.len()
                    && #[trigger] self.user_deletion_request_budget_keys@[j] == rows0[k] by {
                assert(self.user_deletion_request_budget_keys@[pos[k]] == rows0[k]);
            }
            assert(sweep_keeps_undue(rows0, self.user_deletion_request_budget_keys@, now));
        }
        Ok(())
    }
}

impl User {
    /// A copy that keeps every field's value.
    pub fn duplicate_row(&self) -> (r: User)
        ensures
            r.id == self.id,
            r.email@ == self.email@,
            r.is_verified == self.is_verified,
            r.created_timestamp == self.created_timestamp,
            r.public_key_id == self.public_key_id,
            r.public_key@ == self.public_key@,
            r.auth_string_hash@ == self.auth_string_hash@,
    {
        User {
            id: self.id,
            email: self.email.clone(),
            is_verified: self.is_verified,
            created_timestamp: self.created_timestamp,
            public_key_id: self.public_key_id,
            public_key: self.public_key.clone(),
            auth_string_hash: self.auth_string_hash.clone(),
            auth_string_salt: self.auth_string_salt.clone(),
            auth_string_memory_cost_kib: self.auth_string_memory_cost_kib,
            auth_string_parallelism_factor: self.auth_string_parallelism_factor,
            auth_string_iters: self.auth_string_iters,
            password_encryption_salt: self.password_encryption_salt.clone(),
            password_encryption_memory_cost_kib: self.password_encryption_memory_cost_kib,
            password_encryption_parallelism_factor: self.password_encryption_parallelism_factor,
            password_encryption_iters: self.password_encryption_iters,
            recovery_key_salt: self.recovery_key_salt.clone(),
            recovery_key_memory_cost_kib: self.recovery_key_memory_cost_kib,
            recovery_key_parallelism_factor: self.recovery_key_parallelism_factor,
            recovery_key_iters: self.recovery_key_iters,
            encryption_key_encrypted_with_password:
                self.encryption_key_encrypted_with_password.clone(),
            encryption_key_encrypted_with_recovery_key:
                self.encryption_key_encrypted_with_recovery_key.clone(),
        }
    }
}

/// Every element of `a` appears in `b`.
pub open spec fn seq_subset<T>(a: Seq<T>, b: Seq<T>) -> bool {
    forall|j: int| 0 <= j < a.len() ==> b.contains(#[trigger] a[j])
}

/// A sequence mapped element-for-element into another is a subset of it.
proof fn lemma_seq_subset_from_src<T>(a: Seq<T>, b: Seq<T>, src: Seq<int>)
    requires
        src.len() == a.len(),
        forall|j: int|
            0 <= j < a.len() ==> 0 <= #[trigger] src[j] < b.len() && a[j] == b[src[j]],
    ensures
        seq_subset(a, b),
{
    assert forall|j: int| 0 <= j < a.len() implies b.contains(#[trigger] a[j]) by {
        assert(0 <= src[j] < b.len() && a[j] == b[src[j]]);
        assert(b.contains(b[src[j]]));
    }
}

/// Every deletion request already due at `now` appears in the sweep's output.
pub open spec fn sweep_keeps_ready(
    orig: Seq<UserDeletionRequest>,
    out: Seq<UserDeletionRequest>,
    now: u64,
) -> bool {
    forall|k: int|
        0 <= k < orig.len() && (#[trigger] orig[k]).ready_for_deletion_time < now ==> exists|
            j: int,
        | 0 <= j < out.len() && #[trigger] out[j] == orig[k]
}

/// Every bookkeeping row not yet due at `now` survives the sweep.
pub open spec fn sweep_keeps_undue(
    orig: Seq<UserDeletionRequestBudgetKey>,
    out: Seq<UserDeletionRequestBudgetKey>,
    now: u64,
) -> bool {
    forall|k: int|
        0 <= k < orig.len() && (#[trigger] orig[k]).delete_me_time > now ==> exists|j: int|
            0 <= j < out.len() && #[trigger] out[j] == orig[k]
}

/// Two user rows carry the same account: same identifiers, status, key
/// material and password hash.
pub open spec fn user_rows_match(a: User, b: User) -> bool {
    &&& a.id == b.id
    &&& a.email@ == b.email@
    &&& a.is_verified == b.is_verified
    &&& a.created_timestamp == b.created_timestamp
    &&& a.public_key_id == b.public_key_id
    &&& a.public_key@ == b.public_key@
    &&& a.auth_string_hash@ == b.auth_string_hash@
}

/// Some row of `b` carries the same account as `row`.
pub open spec fn user_row_in(b: Seq<User>, row: User) -> bool {
    exists|k: int| 0 <= k < b.len() && #[trigger] user_rows_match(row, b[k])
}

/// Every row of `a` carries an account from `b`.
pub open spec fn users_subset_by_fields(a: Seq<User>, b: Seq<User>) -> bool {
    forall|j: int| 0 <= j < a.len() ==> user_row_in(b, #[trigger] a[j])
}

/// Some row of `out` carries the same account as `row`.
pub open spec fn user_row_among(out: Seq<User>, row: User) -> bool {
    exists|j: int| 0 <= j < out.len() && #[trigger] user_rows_match(out[j], row)
}

/// Every account the sweep must keep — verified, or not yet past the cutoff
/// — appears in the output.
pub open spec fn users_kept(orig: Seq<User>, out: Seq<User>, cutoff: u64) -> bool {
    forall|k: int|
        0 <= k < orig.len() && !((#[trigger] orig[k]).created_timestamp < cutoff
            && !orig[k].is_verified) ==> user_row_among(out, orig[k])
}

/// A user table mapped row-for-row into another is a subset of it.
proof fn lemma_users_subset_from_src(a: Seq<User>, b: Seq<User>, src: Seq<int>)
    requires
        src.len() == a.len(),
        forall|j: int|
            0 <= j < a.len() ==> 0 <= #[trigger] src[j] < b.len() && user_rows_match(
                a[j],
                b[src[j]],
            ),
    ensures
        users_subset_by_fields(a, b),
{
    assert forall|j: int| 0 <= j < a.len() implies user_row_in(b, #[trigger] a[j]) by {
        assert(user_rows_match(a[j], b[src[j]]));
    }
}

/// A sweep with a recorded output position for every row it must keep keeps
/// them all.
proof fn lemma_users_kept_from_pos(
    orig: Seq<User>,
    out: Seq<User>,
    cutoff: u64,
    pos: Map<int, int>,
)
    requires
        forall|k: int|
            0 <= k < orig.len() && !((#[trigger] orig[k]).created_timestamp < cutoff
                && !orig[k].is_verified) ==> pos.contains_key(k) && 0 <= pos[k] < out.len()
                && user_rows_match(out[pos[k]], orig[k]),
    ensures
        users_kept(orig, out, cutoff),
{
    assert forall|k: int|
        0 <= k < orig.len() && !((#[trigger] orig[k]).created_timestamp < cutoff
            && !orig[k].is_verified) implies user_row_among(out, orig[k]) by {
        assert(user_rows_match(out[pos[k]], orig[k]));
    }
}

/// The key is recorded for deletion together with this user.
pub open spec fn is_listed_key(
    s: Seq<UserDeletionRequestBudgetKey>,
    user_id: Uid,
    key_id: Uid,
) -> bool {
    exists|k: int|
        0 <= k < s.len() && (#[trigger] s[k]).user_id == user_id && s[k].key_id == key_id
}

/// The user's deletion list touches this budget: some key recorded for the
/// user pointed at it.
pub open spec fn spec_deletion_touches(
    udrbk: Seq<UserDeletionRequestBudgetKey>,
    keys: Seq<AccessKeyView>,
    user_id: Uid,
    budget_id: Uid,
) -> bool {
    exists|k: int|
        {
            &&& 0 <= k < udrbk.len()
            &&& (#[trigger] udrbk[k]).user_id == user_id
            &&& has_access_key_id(keys, udrbk[k].key_id)
            &&& keys[access_key_id_at(keys, udrbk[k].key_id)].budget_id == budget_id
        }
}

/// Is `u` among the elements of `ids`?
fn uid_listed(ids: &Vec<Uid>, u: Uid) -> (r: bool)
    ensures
        r == ids@.contains(u),
{
    let n = ids.len();
    let mut i: usize = 0;
    while i < n
        invariant
            n == ids@.len(),
            i <= n,
            forall|j: int| 0 <= j < i ==> ids@[j] != u,
        decreases n - i,
    {
        if ids[i] == u {
            return true;
        }
        i += 1;
    }
    false
}

/// Does any capability key row point at this budget?
fn has_key_for_budget(v: &Vec<BudgetAccessKey>, budget_id: Uid) -> (r: bool)
    ensures
        r == budget_has_keys(v@.map_values(|k: BudgetAccessKey| k@), budget_id),
{
    let n = v.len();
    let mut i: usize = 0;
    while i < n
        invariant
            n == v@.len(),
            i <= n,
            forall|j: int| 0 <= j < i ==> (#[trigger] v@[j])@.budget_id != budget_id,
        decreases n - i,
    {
        if v[i].budget_id == budget_id {
            assert(v@.map_values(|k: BudgetAccessKey| k@)[i as int].budget_id == budget_id);
            return true;
        }
        i += 1;
    }
    proof {
        let mv = v@.map_values(|k: BudgetAccessKey| k@);
        assert forall|j: int| 0 <= j < mv.len() implies (#[trigger] mv[j]).budget_id
            != budget_id by {
            assert(mv[j] == v@[j]@);
        }
    }
    false
}

/// With unique emails, a found index is the chosen one.
proof fn lemma_user_email_at_unique(s: Seq<User>, email: Seq<char>, i: int)
    requires
        unique_users(s),
        0 <= i < s.len(),
        s[i].email@ == email,
    ensures
        has_user_email(s, email),
        user_email_at(s, email) == i,
{
    assert(has_user_email(s, email));
    let k = user_email_at(s, email);
    if k != i {
        if k < i {
            assert(s[k].email@ != s[i].email@);
        } else {
            assert(s[i].email@ != s[k].email@);
        }
    }
}

/// With unique identifiers, a found index is the chosen one.
proof fn lemma_user_id_at_unique(s: Seq<User>, id: Uid, i: int)
    requires
        unique_users(s),
        0 <= i < s.len(),
        s[i].id == id,
    ensures
        has_user_id(s, id),
        user_id_at(s, id) == i,
{
    assert(has_user_id(s, id));
    let k = user_id_at(s, id);
    if k != i {
        if k < i {
            assert(s[k].id != s[i].id);
        } else {
            assert(s[i].id != s[k].id);
        }
    }
}

/// With one preferences row per user, a found index is the chosen one.
proof fn lemma_prefs_at_unique(s: Seq<UserPreferences>, user_id: Uid, i: int)
    requires
        unique_prefs(s),
        0 <= i < s.len(),
        s[i].user_id == user_id,
    ensures
        has_prefs(s, user_id),
        prefs_at(s, user_id) == i,
{
    assert(has_prefs(s, user_id));
    let k = prefs_at(s, user_id);
    if k != i {
        if k < i {
            assert(s[k].user_id != s[i].user_id);
        } else {
            assert(s[i].user_id != s[k].user_id);
        }
    }
}

/// With one keystore row per user, a found index is the chosen one.
proof fn lemma_keystore_at_unique(s: Seq<UserKeystore>, user_id: Uid, i: int)
    requires
        unique_keystores(s),
        0 <= i < s.len(),
        s[i].user_id == user_id,
    ensures
        has_keystore(s, user_id),
        keystore_at(s, user_id) == i,
{
    assert(has_keystore(s, user_id));
    let k = keystore_at(s, user_id);
    if k != i {
        if k < i {
            assert(s[k].user_id != s[i].user_id);
        } else {
            assert(s[i].user_id != s[k].user_id);
        }
    }
}

/// With one deletion request per user, a found index is the chosen one.
proof fn lemma_deletion_request_at_unique(s: Seq<UserDeletionRequest>, user_id: Uid, i: int)
    requires
        unique_deletion_requests(s),
        0 <= i < s.len(),
        s[i].user_id == user_id,
    ensures
        has_deletion_request(s, user_id),
        deletion_request_at(s, user_id) == i,
{
    assert(has_deletion_request(s, user_id));
    let k = deletion_request_at(s, user_id);
    if k != i {
        if k < i {
            assert(s[k].user_id != s[i].user_id);
        } else {
            assert(s[i].user_id != s[k].user_id);
        }
    }
}

} // verus!
