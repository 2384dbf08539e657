//! The service layer: each operation takes a decoded capability token,
//! re-fetches the bound public key from the store (never trusting key
//! material in the token), verifies the signature and expiration, and only
//! then runs the store transition.  Verification failures surface in the
//! deliberately coarse taxonomy of [`HttpErrorResponse`].

use vstd::prelude::*;

use crate::budget_store::{
    access_key_at, budget_at, has_access_key, has_budget, has_invite, spec_accept_invitation,
    spec_delete_invitation, spec_invite_view, spec_invite_user, spec_reject_invitation,
    spec_update_budget, BudgetFrame, Dao, EntryAndCategoryIds,
};
use crate::bytes::clone_bytes;
use crate::claims::{BudgetAccessTokenClaims, BudgetAcceptTokenClaims};
use crate::crypto::{
    ed25519_generate, ed25519_public_of, ed25519_valid, rsa_encrypt_pkcs1v15, sha1_of, uid_new_v4,
};
use crate::errors::{token_error_response, DaoError, HttpErrorResponse};
use crate::ids::{uid_be_bytes, Uid};
use crate::models::{Budget, BudgetAccessKey, BudgetShareInvitePublicData, CategoryWithTempId};
use crate::numdec::push_dec;
use crate::token::{BudgetAccessToken, BudgetAcceptToken, BudgetInviteSenderToken, TokenError};

verus! {

/// One invitation creation took the store from `s0` to `s1`: the given
/// accept key and invitation rows were persisted together, the invitation
/// carrying exactly the caller's payloads — in particular the sender public
/// key that retraction is later verified against.
pub open spec fn spec_invite_outcome(
    s0: crate::budget_store::DaoState,
    s1: crate::budget_store::DaoState,
    invitation_id: Uid,
    recipient_email: Seq<char>,
    budget_id: Uid,
    read_only: bool,
    expiration: u64,
    sender_public_key: Seq<u8>,
    encryption_key_encrypted: Seq<u8>,
    budget_info_encrypted: Seq<u8>,
    sender_info_encrypted: Seq<u8>,
    share_info_symmetric_key_encrypted: Seq<u8>,
    recipient_public_key_id_used_by_sender: Uid,
    ak: crate::models::AcceptKeyView,
    inv: crate::models::InviteView,
) -> bool {
    &&& spec_invite_user(s0, inv, ak) == (s1, Ok::<Uid, DaoError>(invitation_id))
    &&& inv.id == invitation_id
    &&& inv.recipient_user_email == recipient_email
    &&& inv.sender_public_key == sender_public_key
    &&& inv.encryption_key_encrypted == encryption_key_encrypted
    &&& inv.budget_info_encrypted == budget_info_encrypted
    &&& inv.sender_info_encrypted == sender_info_encrypted
    &&& inv.share_info_symmetric_key_encrypted == share_info_symmetric_key_encrypted
    &&& inv.recipient_public_key_id_used_by_sender == recipient_public_key_id_used_by_sender
    &&& inv.accept_key_id == ak.key_id
    &&& ak.budget_id == budget_id
    &&& ak.read_only == read_only
    &&& ak.expiration == expiration
    &&& ak.public_key.len() == 32
}

/// The store grants this token read access: the capability row exists, the
/// token is not expired at `now`, and its signature validates against the
/// row's public key.
pub open spec fn spec_read_granted(s: crate::budget_store::DaoState, t: BudgetAccessToken, now: u64) -> bool {
    &&& has_access_key(s.access_keys, t.claims.key_id, t.claims.budget_id)
    &&& now <= t.claims.expiration
    &&& ed25519_valid(
        s.access_keys[access_key_at(s.access_keys, t.claims.key_id, t.claims.budget_id)].public_key,
        t.spec_claims_bytes(),
        t.spec_signature(),
    )
}

/// The store grants this token write access: read access through a key that
/// is not read-only.
pub open spec fn spec_write_granted(s: crate::budget_store::DaoState, t: BudgetAccessToken, now: u64) -> bool {
    &&& spec_read_granted(s, t, now)
    &&& !s.access_keys[access_key_at(
        s.access_keys,
        t.claims.key_id,
        t.claims.budget_id,
    )].read_only
}

/// Fetches the capability key row a token claims, fresh from the store.
pub fn obtain_public_key(key_id: Uid, budget_id: Uid, dao: &Dao) -> (r: Result<
    BudgetAccessKey,
    HttpErrorResponse,
>)
    requires
        dao@.wf(),
    ensures
        match r {
            Ok(k) => has_access_key(dao@.access_keys, key_id, budget_id) && k@
                == dao@.access_keys[access_key_at(dao@.access_keys, key_id, budget_id)],
            Err(e) => e is DoesNotExist && !has_access_key(dao@.access_keys, key_id, budget_id),
        },
{
    match dao.get_public_budget_key(key_id, budget_id) {
        Ok(k) => Ok(k),
        Err(_) => Err(HttpErrorResponse::DoesNotExist("No budget with ID matching token")),
    }
}

/// Verifies a token for reading: key fetched fresh, expiration first, then
/// the signature; a missing key and a bad signature are indistinguishable
/// to the caller.
pub fn verify_read_access(budget_access_token: &BudgetAccessToken, dao: &Dao, now: u64) -> (r:
    Result<(), HttpErrorResponse>)
    requires
        dao@.wf(),
    ensures
        r is Ok <==> spec_read_granted(dao@, *budget_access_token, now),
        !has_access_key(
            dao@.access_keys,
            budget_access_token.claims.key_id,
            budget_access_token.claims.budget_id,
        ) ==> (r matches Err(e) && e is DoesNotExist),
        has_access_key(
            dao@.access_keys,
            budget_access_token.claims.key_id,
            budget_access_token.claims.budget_id,
        ) && now > budget_access_token.claims.expiration ==> (r matches Err(e) && e is OutOfDate),
        has_access_key(
            dao@.access_keys,
            budget_access_token.claims.key_id,
            budget_access_token.claims.budget_id,
        ) && now <= budget_access_token.claims.expiration && !spec_read_granted(
            dao@,
            *budget_access_token,
            now,
        ) ==> (r matches Err(e) && e is DoesNotExist),
{
    let key = match obtain_public_key(
        budget_access_token.claims.key_id,
        budget_access_token.claims.budget_id,
        dao,
    ) {
        Ok(k) => k,
        Err(e) => {
            return Err(e);
        },
    };
    match budget_access_token.verify(key.public_key.as_slice(), now) {
        Ok(_) => Ok(()),
        Err(e) => Err(token_error_response(e)),
    }
}

/// Verifies a token for writing: read access, and the key must not be
/// read-only; a read-only key draws a distinct authorization error.
pub fn verify_read_write_access(budget_access_token: &BudgetAccessToken, dao: &Dao, now: u64) -> (r:
    Result<(), HttpErrorResponse>)
    requires
        dao@.wf(),
    ensures
        r is Ok <==> spec_write_granted(dao@, *budget_access_token, now),
        !has_access_key(
            dao@.access_keys,
            budget_access_token.claims.key_id,
            budget_access_token.claims.budget_id,
        ) ==> (r matches Err(e) && e is DoesNotExist),
        has_access_key(
            dao@.access_keys,
            budget_access_token.claims.key_id,
            budget_access_token.claims.budget_id,
        ) && now > budget_access_token.claims.expiration ==> (r matches Err(e) && e is OutOfDate),
        has_access_key(
            dao@.access_keys,
            budget_access_token.claims.key_id,
            budget_access_token.claims.budget_id,
        ) && now <= budget_access_token.claims.expiration && !spec_read_granted(
            dao@,
            *budget_access_token,
            now,
        ) ==> (r matches Err(e) && e is DoesNotExist),
        spec_read_granted(dao@, *budget_access_token, now) && !spec_write_granted(
            dao@,
            *budget_access_token,
            now,
        ) ==> (r matches Err(e) && e is ReadOnlyAccess),
{
    let key = match obtain_public_key(
        budget_access_token.claims.key_id,
        budget_access_token.claims.budget_id,
        dao,
    ) {
        Ok(k) => k,
        Err(e) => {
            return Err(e);
        },
    };
    match budget_access_token.verify(key.public_key.as_slice(), now) {
        Ok(_) => {},
        Err(e) => {
            return Err(token_error_response(e));
        },
    }
    if key.read_only {
        return Err(HttpErrorResponse::ReadOnlyAccess("User has read-only access to budget"));
    }
    Ok(())
}

/// Reads a budget under a read capability.
pub fn get(dao: &Dao, budget_access_token: &BudgetAccessToken, now: u64) -> (r: Result<
    Budget,
    HttpErrorResponse,
>)
    requires
        dao@.wf(),
    ensures
        match r {
            Ok(b) => spec_read_granted(dao@, *budget_access_token, now) && has_budget(
                dao@.budgets,
                budget_access_token.claims.budget_id,
            ) && b@ == dao@.budgets[budget_at(
                dao@.budgets,
                budget_access_token.claims.budget_id,
            )],
            Err(e) => {
                &&& !spec_read_granted(dao@, *budget_access_token, now) || !has_budget(
                    dao@.budgets,
                    budget_access_token.claims.budget_id,
                )
                &&& (spec_read_granted(dao@, *budget_access_token, now) ==> e is DoesNotExist)
                &&& (!has_access_key(
                    dao@.access_keys,
                    budget_access_token.claims.key_id,
                    budget_access_token.claims.budget_id,
                ) ==> e is DoesNotExist)
                &&& (has_access_key(
                    dao@.access_keys,
                    budget_access_token.claims.key_id,
                    budget_access_token.claims.budget_id,
                ) && now > budget_access_token.claims.expiration ==> e is OutOfDate)
                &&& (has_access_key(
                    dao@.access_keys,
                    budget_access_token.claims.key_id,
                    budget_access_token.claims.budget_id,
                ) && now <= budget_access_token.claims.expiration && !spec_read_granted(
                    dao@,
                    *budget_access_token,
                    now,
                ) ==> e is DoesNotExist)
            },
        },
{
    match verify_read_access(budget_access_token, dao, now) {
        Ok(_) => {},
        Err(e) => {
            return Err(e);
        },
    }
    match dao.get_budget(budget_access_token.claims.budget_id) {
        Ok(b) => Ok(b),
        Err(_) => Err(HttpErrorResponse::DoesNotExist("No budget with ID matching token")),
    }
}

/// A digest-guarded edit of the budget blob under a write capability.
pub fn edit(
    dao: &mut Dao,
    budget_access_token: &BudgetAccessToken,
    now: u64,
    encrypted_blob: &Vec<u8>,
    expected_previous_data_hash: &Vec<u8>,
) -> (r: Result<(), HttpErrorResponse>)
    requires
        old(dao)@.wf(),
    ensures
        final(dao)@.wf(),
        !spec_write_granted(old(dao)@, *budget_access_token, now) ==> final(dao)@ == old(dao)@ && r
            is Err,
        spec_write_granted(old(dao)@, *budget_access_token, now) ==> {
            let t = spec_update_budget(
                old(dao)@,
                budget_access_token.claims.budget_id,
                encrypted_blob@,
                expected_previous_data_hash@,
            );
            &&& final(dao)@ == t.0
            &&& (r is Ok <==> t.1 is Ok)
            &&& (t.1 == Err::<(), DaoError>(DaoError::OutOfDateHash) ==> (r matches Err(e) && e
                is OutOfDate))
            &&& (t.1 == Err::<(), DaoError>(DaoError::NotFound) ==> (r matches Err(e) && e
                is DoesNotExist))
        },
{
    match verify_read_write_access(budget_access_token, dao, now) {
        Ok(_) => {},
        Err(e) => {
            return Err(e);
        },
    }
    match dao.update_budget(
        budget_access_token.claims.budget_id,
        encrypted_blob,
        expected_previous_data_hash,
    ) {
        Ok(_) => Ok(()),
        Err(DaoError::OutOfDateHash) => Err(HttpErrorResponse::OutOfDate("Out of date hash")),
        Err(_) => Err(HttpErrorResponse::DoesNotExist("No budget with ID matching token")),
    }
}

/// Creates a budget owned by the caller; the client-chosen category
/// `temp_id`s must be distinct so the returned identifiers can be matched
/// up.
#[verifier::loop_isolation(false)]
pub fn create(dao: &mut Dao, budget_data_categories: &Vec<CategoryWithTempId>, encrypted_blob: &Vec<
    u8,
>, user_public_budget_key: &Vec<u8>) -> (r: Result<BudgetFrame, HttpErrorResponse>)
    requires
        old(dao)@.wf(),
    ensures
        final(dao)@.wf(),
        (exists|i: int, j: int|
            0 <= i < j < budget_data_categories@.len()
                && (#[trigger] budget_data_categories@[i]).temp_id == (
            #[trigger] budget_data_categories@[j]).temp_id) ==> (r matches Err(e) && e
            is InvalidState && final(dao)@ == old(dao)@),
        match r {
            Ok(frame) => {
                &&& frame.category_ids@.len() == budget_data_categories@.len()
                &&& final(dao)@.budgets == old(dao)@.budgets.push(
                    crate::models::BudgetView {
                        id: frame.id,
                        encrypted_blob: encrypted_blob@,
                        encrypted_blob_sha1_hash: sha1_of(encrypted_blob@),
                    },
                )
                &&& final(dao)@.access_keys == old(dao)@.access_keys.push(
                    crate::models::AccessKeyView {
                        key_id: frame.access_key_id,
                        budget_id: frame.id,
                        public_key: user_public_budget_key@,
                        read_only: false,
                    },
                )
            },
            Err(e) => final(dao)@ == old(dao)@ && (e is InvalidState || e is InternalError),
        },
        (r matches Err(e) && e is InvalidState) ==> exists|i: int, j: int|
            0 <= i < j < budget_data_categories@.len()
                && (#[trigger] budget_data_categories@[i]).temp_id == (
            #[trigger] budget_data_categories@[j]).temp_id,
        !(exists|i: int, j: int|
            0 <= i < j < budget_data_categories@.len()
                && (#[trigger] budget_data_categories@[i]).temp_id == (
            #[trigger] budget_data_categories@[j]).temp_id) ==> (r is Ok || (r matches Err(e) && e
            is InternalError)),
{
    let n = budget_data_categories.len();
    let mut i: usize = 0;
    while i < n
        invariant
            n == budget_data_categories@.len(),
            i <= n,
            forall|a: int, b: int|
                0 <= a < b < i ==> (#[trigger] budget_data_categories@[a]).temp_id != (
                #[trigger] budget_data_categories@[b]).temp_id,
        decreases n - i,
    {
        let mut j: usize = 0;
        while j < i
            invariant
                i < n == budget_data_categories@.len(),
                j <= i,
                forall|a: int|
                    0 <= a < j ==> (#[trigger] budget_data_categories@[a]).temp_id
                        != budget_data_categories@[i as int].temp_id,
            decreases i - j,
        {
            if budget_data_categories[j].temp_id == budget_data_categories[i].temp_id {
                assert(budget_data_categories@[j as int].temp_id == budget_data_categories@[
                    i as int].temp_id);
                return Err(HttpErrorResponse::InvalidState("Multiple categories with the same ID"));
            }
            j += 1;
        }
        i += 1;
    }
    match dao.create_budget(encrypted_blob, budget_data_categories, user_public_budget_key) {
        Ok(frame) => Ok(frame),
        Err(_) => Err(HttpErrorResponse::InternalError("Failed to create budget")),
    }
}

/// The encrypted accept-key material prepared for one invitation.
pub struct AcceptKey {
    pub key_id: Uid,
    pub key_id_encrypted: Vec<u8>,
    pub public_key: Vec<u8>,
    pub private_key_encrypted: Vec<u8>,
    pub key_info_encrypted: Vec<u8>,
}

/// The length-delimited varint bytes of `x` (the integer encoding of the
/// wire format used for the accept-key metadata).
pub open spec fn spec_varint(x: u64) -> Seq<u8>
    decreases x via spec_varint_decreases
{
    if x < 128 {
        seq![x as u8]
    } else {
        seq![((x % 128) + 128) as u8] + spec_varint(x / 128)
    }
}

#[via_fn]
proof fn spec_varint_decreases(x: u64) {
}

/// The wire bytes of the accept-key metadata handed (encrypted) to the
/// recipient: field 1 the read-only flag, field 2 the expiration, each
/// omitted when it has the default value.
pub open spec fn spec_accept_key_info(read_only: bool, expiration: u64) -> Seq<u8> {
    (if read_only {
        seq![8u8, 1u8]
    } else {
        Seq::<u8>::empty()
    }) + (if expiration == 0 {
        Seq::<u8>::empty()
    } else {
        seq![16u8] + spec_varint(expiration)
    })
}

/// Appends the varint bytes of `x`.
fn push_varint(out: &mut Vec<u8>, x: u64)
    ensures
        final(out)@ == old(out)@ + spec_varint(x),
    decreases x,
{
    if x < 128 {
        out.push(x as u8);
        assert(out@ =~= old(out)@ + spec_varint(x));
        return ;
    }
    out.push(((x % 128) + 128) as u8);
    push_varint(out, x / 128);
    assert(out@ =~= old(out)@ + spec_varint(x));
}

/// Encodes the accept-key metadata.
pub fn encode_accept_key_info(read_only: bool, expiration: u64) -> (r: Vec<u8>)
    ensures
        r@ == spec_accept_key_info(read_only, expiration),
{
    let mut out: Vec<u8> = Vec::new();
    if read_only {
        out.push(8);
        out.push(1);
    }
    if expiration != 0 {
        out.push(16);
        push_varint(&mut out, expiration);
    }
    assert(out@ =~= spec_accept_key_info(read_only, expiration));
    out
}

/// The recipient's stored key can carry the handshake: PKCS#1 v1.5
/// encryption under it accepts the 32-byte accept private key, the 16-byte
/// key identifier, and the encoded key metadata.
pub open spec fn spec_recipient_der_usable(der: Seq<u8>, read_only: bool, expiration: u64) -> bool {
    &&& crate::crypto::rsa_pkcs1v15_accepts(der, 32)
    &&& crate::crypto::rsa_pkcs1v15_accepts(der, 16)
    &&& crate::crypto::rsa_pkcs1v15_accepts(der, spec_accept_key_info(read_only, expiration).len())
}

/// Generates the accept key pair and encrypts its private half, its
/// identifier and its metadata under the recipient's public key.  The
/// identifier plaintext is the sixteen-byte form of `key_id`.
fn build_accept_key(recipient_public_key_der: &Vec<u8>, read_only: bool, expiration: u64) -> (r:
    Result<AcceptKey, HttpErrorResponse>)
    ensures
        r is Ok <==> spec_recipient_der_usable(recipient_public_key_der@, read_only, expiration),
        match r {
            Ok(k) => k.public_key@.len() == 32 && exists|sk: Seq<u8>|
                sk.len() == 32 && #[trigger] ed25519_public_of(sk) == k.public_key@,
            Err(e) => e is IncorrectlyFormed,
        },
{
    let (private_key, public_key) = ed25519_generate();
    let private_key_encrypted = match rsa_encrypt_pkcs1v15(
        recipient_public_key_der.as_slice(),
        private_key.as_slice(),
    ) {
        Ok(ct) => ct,
        Err(_) => {
            return Err(
                HttpErrorResponse::IncorrectlyFormed(
                    "Recipient user's public key is incorrectly formatted",
                ),
            );
        },
    };
    let key_id = uid_new_v4();
    let key_id_bytes = uid_be_bytes(&key_id);
    let key_id_encrypted = match rsa_encrypt_pkcs1v15(
        recipient_public_key_der.as_slice(),
        key_id_bytes.as_slice(),
    ) {
        Ok(ct) => ct,
        Err(_) => {
            return Err(
                HttpErrorResponse::IncorrectlyFormed(
                    "Recipient user's public key is incorrectly formatted",
                ),
            );
        },
    };
    let key_info = encode_accept_key_info(read_only, expiration);
    let key_info_encrypted = match rsa_encrypt_pkcs1v15(
        recipient_public_key_der.as_slice(),
        key_info.as_slice(),
    ) {
        Ok(ct) => ct,
        Err(_) => {
            return Err(
                HttpErrorResponse::IncorrectlyFormed(
                    "Recipient user's public key is incorrectly formatted",
                ),
            );
        },
    };
    proof {
        assert(ed25519_public_of(private_key@) == public_key@);
    }
    Ok(
        AcceptKey {
            key_id,
            key_id_encrypted,
            public_key,
            private_key_encrypted,
            key_info_encrypted,
        },
    )
}

/// Invites another user to a budget: under a write capability, generates a
/// fresh accept key pair, encrypts the private half and metadata under the
/// recipient's long-lived public key, and persists the accept key and
/// invitation rows atomically.  Plaintext key material is never returned.
pub fn invite_user(
    dao: &mut Dao,
    user_dao: &crate::user_store::Dao,
    budget_access_token: &BudgetAccessToken,
    now: u64,
    sender_email: &str,
    recipient_user_email: &str,
    sender_public_key: &Vec<u8>,
    encryption_key_encrypted: &Vec<u8>,
    budget_info_encrypted: &Vec<u8>,
    sender_info_encrypted: &Vec<u8>,
    share_info_symmetric_key_encrypted: &Vec<u8>,
    expiration: u64,
    read_only: bool,
    recipient_public_key_id_used_by_sender: Uid,
) -> (r: Result<Uid, HttpErrorResponse>)
    requires
        old(dao)@.wf(),
        user_dao.wf(),
    ensures
        final(dao)@.wf(),
        sender_email@ == recipient_user_email@ ==> (r matches Err(e) && e is InvalidState && final(dao)@ == old(dao)@),
        !spec_write_granted(old(dao)@, *budget_access_token, now) && sender_email@
            != recipient_user_email@ ==> r is Err && final(dao)@ == old(dao)@,
        r is Err ==> final(dao)@ == old(dao)@,
        spec_write_granted(old(dao)@, *budget_access_token, now) && sender_email@
            != recipient_user_email@ && !crate::user_store::has_user_email(
            user_dao.users@,
            recipient_user_email@,
        ) ==> (r matches Err(e) && e is DoesNotExist),
        spec_write_granted(old(dao)@, *budget_access_token, now) && sender_email@
            != recipient_user_email@ && crate::user_store::has_user_email(
            user_dao.users@,
            recipient_user_email@,
        ) && !spec_recipient_der_usable(
            user_dao.users@[crate::user_store::user_email_at(
                user_dao.users@,
                recipient_user_email@,
            )].public_key@,
            read_only,
            expiration,
        ) ==> (r matches Err(e) && e is IncorrectlyFormed),
        spec_write_granted(old(dao)@, *budget_access_token, now) && sender_email@
            != recipient_user_email@ && crate::user_store::has_user_email(
            user_dao.users@,
            recipient_user_email@,
        ) && spec_recipient_der_usable(
            user_dao.users@[crate::user_store::user_email_at(
                user_dao.users@,
                recipient_user_email@,
            )].public_key@,
            read_only,
            expiration,
        ) && has_budget(old(dao)@.budgets, budget_access_token.claims.budget_id) ==> (r is Ok || (
        r matches Err(e) && e is InternalError)),
        spec_write_granted(old(dao)@, *budget_access_token, now) && sender_email@
            != recipient_user_email@ && has_budget(
            old(dao)@.budgets,
            budget_access_token.claims.budget_id,
        ) && (r matches Err(e) && e is DoesNotExist) ==> !crate::user_store::has_user_email(
            user_dao.users@,
            recipient_user_email@,
        ),
        match r {
            Ok(invitation_id) => {
                &&& spec_write_granted(old(dao)@, *budget_access_token, now)
                &&& crate::user_store::has_user_email(user_dao.users@, recipient_user_email@)
                &&& has_invite(final(dao)@.invites, invitation_id)
                &&& exists|ak: crate::models::AcceptKeyView, inv: crate::models::InviteView|
                    #[trigger] spec_invite_outcome(
                        old(dao)@,
                        final(dao)@,
                        invitation_id,
                        recipient_user_email@,
                        budget_access_token.claims.budget_id,
                        read_only,
                        expiration,
                        sender_public_key@,
                        encryption_key_encrypted@,
                        budget_info_encrypted@,
                        sender_info_encrypted@,
                        share_info_symmetric_key_encrypted@,
                        recipient_public_key_id_used_by_sender,
                        ak,
                        inv,
                    )
            },
            Err(_) => true,
        },
{
    if crate::strutil::str_eq(recipient_user_email, sender_email) {
        return Err(HttpErrorResponse::InvalidState("Inviter and recipient are the same"));
    }
    match verify_read_write_access(budget_access_token, dao, now) {
        Ok(_) => {},
        Err(e) => {
            return Err(e);
        },
    }
    let recipient_key = match user_dao.get_user_public_key(recipient_user_email) {
        Ok(k) => k,
        Err(_) => {
            return Err(HttpErrorResponse::DoesNotExist("No user with given email"));
        },
    };
    let accept_key = match build_accept_key(&recipient_key.value, read_only, expiration) {
        Ok(k) => k,
        Err(e) => {
            return Err(e);
        },
    };
    match dao.invite_user(
        recipient_user_email,
        sender_public_key,
        encryption_key_encrypted,
        budget_info_encrypted,
        sender_info_encrypted,
        share_info_symmetric_key_encrypted,
        budget_access_token.claims.budget_id,
        expiration,
        read_only,
        accept_key.key_id,
        &accept_key.key_id_encrypted,
        &accept_key.public_key,
        &accept_key.private_key_encrypted,
        &accept_key.key_info_encrypted,
        recipient_public_key_id_used_by_sender,
        recipient_key.id,
    ) {
        Ok(invitation_id) => {
            proof {
                let inv = spec_invite_view(
                    invitation_id,
                    recipient_user_email@,
                    sender_public_key@,
                    encryption_key_encrypted@,
                    budget_info_encrypted@,
                    sender_info_encrypted@,
                    share_info_symmetric_key_encrypted@,
                    accept_key.key_id,
                    accept_key.key_id_encrypted@,
                    accept_key.private_key_encrypted@,
                    accept_key.key_info_encrypted@,
                    recipient_public_key_id_used_by_sender,
                    recipient_key.id,
                );
                let ak = crate::models::AcceptKeyView {
                    key_id: accept_key.key_id,
                    budget_id: budget_access_token.claims.budget_id,
                    public_key: accept_key.public_key@,
                    read_only,
                    expiration,
                };
                assert(dao@.invites.last().id == invitation_id);
                assert(has_invite(dao@.invites, invitation_id));
                assert(spec_invite_outcome(
                    old(dao)@,
                    dao@,
                    invitation_id,
                    recipient_user_email@,
                    budget_access_token.claims.budget_id,
                    read_only,
                    expiration,
                    sender_public_key@,
                    encryption_key_encrypted@,
                    budget_info_encrypted@,
                    sender_info_encrypted@,
                    share_info_symmetric_key_encrypted@,
                    recipient_public_key_id_used_by_sender,
                    ak,
                    inv,
                ));
            }
            Ok(invitation_id)
        },
        Err(DaoError::NotFound) => Err(
            HttpErrorResponse::DoesNotExist("No budget or invite with ID matching token"),
        ),
        Err(_) => Err(HttpErrorResponse::InternalError("Failed to share budget")),
    }
}

/// Retracts an invitation: only the original sender can, proved by the
/// invite sender token checked against the stored sender public key.
pub fn retract_invitation(dao: &mut Dao, invite_sender_token: &BudgetInviteSenderToken, now: u64) -> (r:
    Result<(), HttpErrorResponse>)
    requires
        old(dao)@.wf(),
    ensures
        final(dao)@.wf(),
        match r {
            Ok(_) => {
                let iid = invite_sender_token.claims.invite_id;
                &&& has_invite(old(dao)@.invites, iid)
                &&& now <= invite_sender_token.claims.expiration
                &&& ed25519_valid(
                    old(dao)@.invites[crate::budget_store::invite_at(
                        old(dao)@.invites,
                        iid,
                    )].sender_public_key,
                    invite_sender_token.spec_claims_bytes(),
                    invite_sender_token.spec_signature(),
                )
                &&& (final(dao)@, Ok::<(), DaoError>(())) == spec_delete_invitation(
                    old(dao)@,
                    iid,
                )
            },
            Err(e) => final(dao)@ == old(dao)@ && (!has_invite(
                old(dao)@.invites,
                invite_sender_token.claims.invite_id,
            ) ==> e is DoesNotExist),
        },
        ({
            let iid = invite_sender_token.claims.invite_id;
            has_invite(old(dao)@.invites, iid) && now
                <= invite_sender_token.claims.expiration && ed25519_valid(
                old(dao)@.invites[crate::budget_store::invite_at(
                    old(dao)@.invites,
                    iid,
                )].sender_public_key,
                invite_sender_token.spec_claims_bytes(),
                invite_sender_token.spec_signature(),
            )
        }) ==> r is Ok,
        has_invite(old(dao)@.invites, invite_sender_token.claims.invite_id) && now
            > invite_sender_token.claims.expiration ==> (r matches Err(e) && e is OutOfDate),
        ({
            let iid = invite_sender_token.claims.invite_id;
            has_invite(old(dao)@.invites, iid) && now
                <= invite_sender_token.claims.expiration && !ed25519_valid(
                old(dao)@.invites[crate::budget_store::invite_at(
                    old(dao)@.invites,
                    iid,
                )].sender_public_key,
                invite_sender_token.spec_claims_bytes(),
                invite_sender_token.spec_signature(),
            )
        }) ==> (r matches Err(e) && e is DoesNotExist),
{
    let invitation_id = invite_sender_token.claims.invite_id;
    let sender_key = match dao.get_budget_invite_sender_public_key(invitation_id) {
        Ok(k) => k,
        Err(_) => {
            return Err(HttpErrorResponse::DoesNotExist("No invitation with ID matching token"));
        },
    };
    match invite_sender_token.verify(sender_key.as_slice(), now) {
        Ok(_) => {},
        Err(e) => {
            return Err(token_error_response(e));
        },
    }
    match dao.delete_invitation(invitation_id) {
        Ok(_) => Ok(()),
        Err(_) => Err(HttpErrorResponse::DoesNotExist("No share invite with ID matching token")),
    }
}

/// Accepts an invitation: the accept token is checked against the accept
/// key's public half (fetched fresh); an accept key row whose expiration
/// has passed is treated exactly like an absent one, so a prober learns
/// nothing from it; on success the invitation is consumed, the caller's
/// public key is bound as a capability key, and the budget is returned for
/// bootstrapping.
pub fn accept_invitation(
    dao: &mut Dao,
    accept_token: &BudgetAcceptToken,
    now: u64,
    recipient_user_email: &str,
    budget_user_public_key: &Vec<u8>,
) -> (r: Result<Budget, HttpErrorResponse>)
    requires
        old(dao)@.wf(),
    ensures
        final(dao)@.wf(),
        match r {
            Ok(b) => {
                let c = accept_token.claims;
                &&& crate::budget_store::has_accept_key(old(dao)@.accept_keys, c.kid, c.bid)
                &&& old(dao)@.accept_keys[crate::budget_store::accept_key_at(
                    old(dao)@.accept_keys,
                    c.kid,
                    c.bid,
                )].expiration >= now
                &&& now <= c.exp
                &&& ed25519_valid(
                    old(dao)@.accept_keys[crate::budget_store::accept_key_at(
                        old(dao)@.accept_keys,
                        c.kid,
                        c.bid,
                    )].public_key,
                    accept_token.spec_claims_bytes(),
                    accept_token.spec_signature(),
                )
                &&& spec_accept_invitation(
                    old(dao)@,
                    c.kid,
                    c.bid,
                    old(dao)@.accept_keys[crate::budget_store::accept_key_at(
                        old(dao)@.accept_keys,
                        c.kid,
                        c.bid,
                    )].read_only,
                    c.iid,
                    recipient_user_email@,
                    budget_user_public_key@,
                ) == (final(dao)@, Ok::<crate::models::BudgetView, DaoError>(b@))
            },
            Err(e) => final(dao)@ == old(dao)@ && (!crate::budget_store::has_accept_key(
                old(dao)@.accept_keys,
                accept_token.claims.kid,
                accept_token.claims.bid,
            ) ==> e is DoesNotExist),
        },
        ({
            let c = accept_token.claims;
            !crate::budget_store::has_accept_key(old(dao)@.accept_keys, c.kid, c.bid)
                || (crate::budget_store::has_accept_key(old(dao)@.accept_keys, c.kid, c.bid)
                && old(dao)@.accept_keys[crate::budget_store::accept_key_at(
                old(dao)@.accept_keys,
                c.kid,
                c.bid,
            )].expiration < now)
        }) ==> (r matches Err(e) && e is DoesNotExist),
        ({
            let c = accept_token.claims;
            crate::budget_store::has_accept_key(old(dao)@.accept_keys, c.kid, c.bid) && old(
                dao,
            )@.accept_keys[crate::budget_store::accept_key_at(
                old(dao)@.accept_keys,
                c.kid,
                c.bid,
            )].expiration >= now && now > c.exp
        }) ==> (r matches Err(e) && e is OutOfDate),
        ({
            let c = accept_token.claims;
            crate::budget_store::has_accept_key(old(dao)@.accept_keys, c.kid, c.bid) && old(
                dao,
            )@.accept_keys[crate::budget_store::accept_key_at(
                old(dao)@.accept_keys,
                c.kid,
                c.bid,
            )].expiration >= now && now <= c.exp && !ed25519_valid(
                old(dao)@.accept_keys[crate::budget_store::accept_key_at(
                    old(dao)@.accept_keys,
                    c.kid,
                    c.bid,
                )].public_key,
                accept_token.spec_claims_bytes(),
                accept_token.spec_signature(),
            )
        }) ==> (r matches Err(e) && e is DoesNotExist),
        ({
            let c = accept_token.claims;
            crate::budget_store::has_accept_key(old(dao)@.accept_keys, c.kid, c.bid) && old(
                dao,
            )@.accept_keys[crate::budget_store::accept_key_at(
                old(dao)@.accept_keys,
                c.kid,
                c.bid,
            )].expiration >= now && now <= c.exp && ed25519_valid(
                old(dao)@.accept_keys[crate::budget_store::accept_key_at(
                    old(dao)@.accept_keys,
                    c.kid,
                    c.bid,
                )].public_key,
                accept_token.spec_claims_bytes(),
                accept_token.spec_signature(),
            )
        }) ==> ({
            let c = accept_token.claims;
            let t = spec_accept_invitation(
                old(dao)@,
                c.kid,
                c.bid,
                old(dao)@.accept_keys[crate::budget_store::accept_key_at(
                    old(dao)@.accept_keys,
                    c.kid,
                    c.bid,
                )].read_only,
                c.iid,
                recipient_user_email@,
                budget_user_public_key@,
            );
            &&& final(dao)@ == t.0
            &&& (r is Ok <==> t.1 is Ok)
            &&& (t.1 is Err ==> (r matches Err(e) && e is DoesNotExist))
        }),
{
    let key_id = accept_token.claims.kid;
    let budget_id = accept_token.claims.bid;
    let accept_key = match dao.get_budget_accept_public_key(key_id, budget_id) {
        Ok(k) => k,
        Err(_) => {
            return Err(HttpErrorResponse::DoesNotExist("No share invite with ID matching token"));
        },
    };
    if accept_key.expiration < now {
        // An expired accept key row must look exactly like a missing one.
        return Err(HttpErrorResponse::DoesNotExist("No share invite with ID matching token"));
    }
    match accept_token.verify(accept_key.public_key.as_slice(), now) {
        Ok(_) => {},
        Err(e) => {
            return Err(token_error_response(e));
        },
    }
    match dao.accept_invitation(
        accept_key.key_id,
        accept_key.budget_id,
        accept_key.read_only,
        accept_token.claims.iid,
        recipient_user_email,
        budget_user_public_key,
    ) {
        Ok(b) => Ok(b),
        Err(_) => Err(HttpErrorResponse::DoesNotExist("No share invite with ID matching token")),
    }
}

/// Declines an invitation: the same handshake as accepting — an accept key
/// row whose expiration has passed is treated exactly like an absent one —
/// but the rows are simply deleted and no capability is created.
pub fn decline_invitation(
    dao: &mut Dao,
    accept_token: &BudgetAcceptToken,
    now: u64,
    recipient_user_email: &str,
) -> (r: Result<(), HttpErrorResponse>)
    requires
        old(dao)@.wf(),
    ensures
        final(dao)@.wf(),
        match r {
            Ok(_) => {
                let c = accept_token.claims;
                &&& crate::budget_store::has_accept_key(old(dao)@.accept_keys, c.kid, c.bid)
                &&& old(dao)@.accept_keys[crate::budget_store::accept_key_at(
                    old(dao)@.accept_keys,
                    c.kid,
                    c.bid,
                )].expiration >= now
                &&& now <= c.exp
                &&& ed25519_valid(
                    old(dao)@.accept_keys[crate::budget_store::accept_key_at(
                        old(dao)@.accept_keys,
                        c.kid,
                        c.bid,
                    )].public_key,
                    accept_token.spec_claims_bytes(),
                    accept_token.spec_signature(),
                )
                &&& spec_reject_invitation(old(dao)@, c.iid, c.kid, recipient_user_email@) == (
                    final(dao)@,
                    Ok::<(), DaoError>(()),
                )
            },
            Err(e) => final(dao)@ == old(dao)@ && (!crate::budget_store::has_accept_key(
                old(dao)@.accept_keys,
                accept_token.claims.kid,
                accept_token.claims.bid,
            ) ==> e is DoesNotExist),
        },
        ({
            let c = accept_token.claims;
            !crate::budget_store::has_accept_key(old(dao)@.accept_keys, c.kid, c.bid)
                || (crate::budget_store::has_accept_key(old(dao)@.accept_keys, c.kid, c.bid)
                && old(dao)@.accept_keys[crate::budget_store::accept_key_at(
                old(dao)@.accept_keys,
                c.kid,
                c.bid,
            )].expiration < now)
        }) ==> (r matches Err(e) && e is DoesNotExist),
        ({
            let c = accept_token.claims;
            crate::budget_store::has_accept_key(old(dao)@.accept_keys, c.kid, c.bid) && old(
                dao,
            )@.accept_keys[crate::budget_store::accept_key_at(
                old(dao)@.accept_keys,
                c.kid,
                c.bid,
            )].expiration >= now && now > c.exp
        }) ==> (r matches Err(e) && e is OutOfDate),
        ({
            let c = accept_token.claims;
            crate::budget_store::has_accept_key(old(dao)@.accept_keys, c.kid, c.bid) && old(
                dao,
            )@.accept_keys[crate::budget_store::accept_key_at(
                old(dao)@.accept_keys,
                c.kid,
                c.bid,
            )].expiration >= now && now <= c.exp && !ed25519_valid(
                old(dao)@.accept_keys[crate::budget_store::accept_key_at(
                    old(dao)@.accept_keys,
                    c.kid,
                    c.bid,
                )].public_key,
                accept_token.spec_claims_bytes(),
                accept_token.spec_signature(),
            )
        }) ==> (r matches Err(e) && e is DoesNotExist),
        ({
            let c = accept_token.claims;
            crate::budget_store::has_accept_key(old(dao)@.accept_keys, c.kid, c.bid) && old(
                dao,
            )@.accept_keys[crate::budget_store::accept_key_at(
                old(dao)@.accept_keys,
                c.kid,
                c.bid,
            )].expiration >= now && now <= c.exp && ed25519_valid(
                old(dao)@.accept_keys[crate::budget_store::accept_key_at(
                    old(dao)@.accept_keys,
                    c.kid,
                    c.bid,
                )].public_key,
                accept_token.spec_claims_bytes(),
                accept_token.spec_signature(),
            )
        }) ==> ({
            let c = accept_token.claims;
            let t = spec_reject_invitation(old(dao)@, c.iid, c.kid, recipient_user_email@);
            &&& final(dao)@ == t.0
            &&& (r is Ok <==> t.1 is Ok)
            &&& (t.1 is Err ==> (r matches Err(e) && e is DoesNotExist))
        }),
{
    let key_id = accept_token.claims.kid;
    let budget_id = accept_token.claims.bid;
    let accept_key = match dao.get_budget_accept_public_key(key_id, budget_id) {
        Ok(k) => k,
        Err(_) => {
            return Err(HttpErrorResponse::DoesNotExist("No share invite with ID matching token"));
        },
    };
    if accept_key.expiration < now {
        // An expired accept key row must look exactly like a missing one.
        return Err(HttpErrorResponse::DoesNotExist("No share invite with ID matching token"));
    }
    match accept_token.verify(accept_key.public_key.as_slice(), now) {
        Ok(_) => {},
        Err(e) => {
            return Err(token_error_response(e));
        },
    }
    match dao.reject_invitation(accept_token.claims.iid, accept_token.claims.kid, recipient_user_email) {
        Ok(_) => Ok(()),
        Err(_) => Err(HttpErrorResponse::DoesNotExist("No share invite with ID matching token")),
    }
}

/// Lists the recipient-visible shares of the caller's pending invitations.
pub fn get_all_pending_invitations(dao: &Dao, user_email: &str) -> (r: Vec<
    BudgetShareInvitePublicData,
>)
    ensures
        r@.map_values(|p: BudgetShareInvitePublicData| p@)
            == crate::budget_store::spec_pending_invites(dao@.invites, user_email@),
{
    dao.get_all_pending_invitations(user_email)
}

/// Leaves a budget under a read capability: the caller's own key row is
/// deleted, killing every outstanding token for it.
pub fn leave_budget(dao: &mut Dao, budget_access_token: &BudgetAccessToken, now: u64) -> (r: Result<
    (),
    HttpErrorResponse,
>)
    requires
        old(dao)@.wf(),
    ensures
        final(dao)@.wf(),
        !spec_read_granted(old(dao)@, *budget_access_token, now) ==> r is Err && final(dao)@ == old(dao)@,
        spec_read_granted(old(dao)@, *budget_access_token, now) ==> r is Ok,
        r is Err ==> final(dao)@ == old(dao)@,
        match r {
            Ok(_) => spec_read_granted(old(dao)@, *budget_access_token, now) && final(dao)@ == (
            crate::budget_store::DaoState {
                access_keys: old(dao)@.access_keys.remove(
                    access_key_at(
                        old(dao)@.access_keys,
                        budget_access_token.claims.key_id,
                        budget_access_token.claims.budget_id,
                    ),
                ),
                ..old(dao)@
            }),
            Err(_) => true,
        },
{
    match verify_read_access(budget_access_token, dao, now) {
        Ok(_) => {},
        Err(e) => {
            return Err(e);
        },
    }
    match dao.leave_budget(budget_access_token.claims.budget_id, budget_access_token.claims.key_id) {
        Ok(_) => Ok(()),
        Err(_) => Err(HttpErrorResponse::DoesNotExist("No budget with ID matching token")),
    }
}

/// Creates an entry under a write capability.
pub fn create_entry(
    dao: &mut Dao,
    budget_access_token: &BudgetAccessToken,
    now: u64,
    encrypted_blob: &Vec<u8>,
    category_id: Option<Uid>,
) -> (r: Result<Uid, HttpErrorResponse>)
    requires
        old(dao)@.wf(),
    ensures
        final(dao)@.wf(),
        !spec_write_granted(old(dao)@, *budget_access_token, now) ==> r is Err && final(dao)@
            == old(dao)@,
        r is Err ==> final(dao)@ == old(dao)@,
        spec_write_granted(old(dao)@, *budget_access_token, now) && !has_budget(
            old(dao)@.budgets,
            budget_access_token.claims.budget_id,
        ) ==> (r matches Err(e) && e is DoesNotExist),
        spec_write_granted(old(dao)@, *budget_access_token, now) && has_budget(
            old(dao)@.budgets,
            budget_access_token.claims.budget_id,
        ) && (category_id matches Some(cid) && !crate::budget_store::has_category(
            old(dao)@.categories,
            cid,
            budget_access_token.claims.budget_id,
        )) ==> (r matches Err(e) && e is ForeignKeyDoesNotExist),
        spec_write_granted(old(dao)@, *budget_access_token, now) && has_budget(
            old(dao)@.budgets,
            budget_access_token.claims.budget_id,
        ) && (category_id is None || crate::budget_store::has_category(
            old(dao)@.categories,
            category_id->0,
            budget_access_token.claims.budget_id,
        )) ==> (r is Ok || (r matches Err(e) && e is InternalError)),
        match r {
            Ok(id) => spec_write_granted(old(dao)@, *budget_access_token, now) && final(dao)@ == (
            crate::budget_store::DaoState {
                entries: old(dao)@.entries.push(
                    crate::models::EntryView {
                        id,
                        budget_id: budget_access_token.claims.budget_id,
                        category_id,
                        encrypted_blob: encrypted_blob@,
                        encrypted_blob_sha1_hash: sha1_of(encrypted_blob@),
                    },
                ),
                ..old(dao)@
            }),
            Err(_) => true,
        },
{
    match verify_read_write_access(budget_access_token, dao, now) {
        Ok(_) => {},
        Err(e) => {
            return Err(e);
        },
    }
    match dao.create_entry(encrypted_blob, category_id, budget_access_token.claims.budget_id) {
        Ok(id) => Ok(id),
        Err(DaoError::NotFound) => Err(
            HttpErrorResponse::DoesNotExist("No budget with ID matching token"),
        ),
        Err(DaoError::ForeignKeyViolation) => Err(
            HttpErrorResponse::ForeignKeyDoesNotExist("No category matching ID"),
        ),
        Err(_) => Err(HttpErrorResponse::InternalError("Failed to create entry")),
    }
}

/// Creates an entry and its category together under a write capability.
pub fn create_entry_and_category(
    dao: &mut Dao,
    budget_access_token: &BudgetAccessToken,
    now: u64,
    entry_encrypted_blob: &Vec<u8>,
    category_encrypted_blob: &Vec<u8>,
) -> (r: Result<EntryAndCategoryIds, HttpErrorResponse>)
    requires
        old(dao)@.wf(),
    ensures
        final(dao)@.wf(),
        !spec_write_granted(old(dao)@, *budget_access_token, now) ==> r is Err && final(dao)@
            == old(dao)@,
        match r {
            Ok(ids) => spec_write_granted(old(dao)@, *budget_access_token, now) && final(dao)@ == (
            crate::budget_store::DaoState {
                categories: old(dao)@.categories.push(
                    crate::models::CategoryView {
                        id: ids.category_id,
                        budget_id: budget_access_token.claims.budget_id,
                        encrypted_blob: category_encrypted_blob@,
                        encrypted_blob_sha1_hash: sha1_of(category_encrypted_blob@),
                    },
                ),
                entries: old(dao)@.entries.push(
                    crate::models::EntryView {
                        id: ids.entry_id,
                        budget_id: budget_access_token.claims.budget_id,
                        category_id: Some(ids.category_id),
                        encrypted_blob: entry_encrypted_blob@,
                        encrypted_blob_sha1_hash: sha1_of(entry_encrypted_blob@),
                    },
                ),
                ..old(dao)@
            }),
            Err(_) => true,
        },
{
    match verify_read_write_access(budget_access_token, dao, now) {
        Ok(_) => {},
        Err(e) => {
            return Err(e);
        },
    }
    match dao.create_entry_and_category(
        entry_encrypted_blob,
        category_encrypted_blob,
        budget_access_token.claims.budget_id,
    ) {
        Ok(ids) => Ok(ids),
        Err(DaoError::NotFound) => Err(
            HttpErrorResponse::DoesNotExist("No budget with ID matching token"),
        ),
        Err(_) => Err(HttpErrorResponse::InternalError("Failed to create entry")),
    }
}

/// A digest-guarded entry edit under a write capability.
pub fn edit_entry(
    dao: &mut Dao,
    budget_access_token: &BudgetAccessToken,
    now: u64,
    entry_id: Uid,
    encrypted_blob: &Vec<u8>,
    expected_previous_data_hash: &Vec<u8>,
    category_id: Option<Uid>,
) -> (r: Result<(), HttpErrorResponse>)
    requires
        old(dao)@.wf(),
    ensures
        final(dao)@.wf(),
        !spec_write_granted(old(dao)@, *budget_access_token, now) ==> r is Err && final(dao)@
            == old(dao)@,
        r is Err ==> final(dao)@ == old(dao)@,
        spec_write_granted(old(dao)@, *budget_access_token, now) && !crate::budget_store::has_entry(
            old(dao)@.entries,
            entry_id,
            budget_access_token.claims.budget_id,
        ) ==> (r matches Err(e) && e is DoesNotExist),
        spec_write_granted(old(dao)@, *budget_access_token, now) && crate::budget_store::has_entry(
            old(dao)@.entries,
            entry_id,
            budget_access_token.claims.budget_id,
        ) && (category_id matches Some(cid) && !crate::budget_store::has_category(
            old(dao)@.categories,
            cid,
            budget_access_token.claims.budget_id,
        )) ==> (r matches Err(e) && e is ForeignKeyDoesNotExist),
        spec_write_granted(old(dao)@, *budget_access_token, now) && crate::budget_store::has_entry(
            old(dao)@.entries,
            entry_id,
            budget_access_token.claims.budget_id,
        ) && (category_id is None || crate::budget_store::has_category(
            old(dao)@.categories,
            category_id->0,
            budget_access_token.claims.budget_id,
        )) && old(dao)@.entries[crate::budget_store::entry_at(
            old(dao)@.entries,
            entry_id,
            budget_access_token.claims.budget_id,
        )].encrypted_blob_sha1_hash == expected_previous_data_hash@ ==> r is Ok,
        match r {
            Ok(_) => {
                let bid = budget_access_token.claims.budget_id;
                &&& spec_write_granted(old(dao)@, *budget_access_token, now)
                &&& crate::budget_store::has_entry(old(dao)@.entries, entry_id, bid)
                &&& old(dao)@.entries[crate::budget_store::entry_at(
                    old(dao)@.entries,
                    entry_id,
                    bid,
                )].encrypted_blob_sha1_hash == expected_previous_data_hash@
                &&& final(dao)@ == (crate::budget_store::DaoState {
                    entries: old(dao)@.entries.update(
                        crate::budget_store::entry_at(old(dao)@.entries, entry_id, bid),
                        crate::models::EntryView {
                            id: entry_id,
                            budget_id: bid,
                            category_id,
                            encrypted_blob: encrypted_blob@,
                            encrypted_blob_sha1_hash: sha1_of(encrypted_blob@),
                        },
                    ),
                    ..old(dao)@
                })
            },
            Err(_) => true,
        },
        spec_write_granted(old(dao)@, *budget_access_token, now) && crate::budget_store::has_entry(
            old(dao)@.entries,
            entry_id,
            budget_access_token.claims.budget_id,
        ) && old(dao)@.entries[crate::budget_store::entry_at(
            old(dao)@.entries,
            entry_id,
            budget_access_token.claims.budget_id,
        )].encrypted_blob_sha1_hash != expected_previous_data_hash@ && (category_id is None
            || crate::budget_store::has_category(
            old(dao)@.categories,
            category_id->0,
            budget_access_token.claims.budget_id,
        )) ==> (r matches Err(e) && e is OutOfDate && final(dao)@ == old(dao)@),
{
    match verify_read_write_access(budget_access_token, dao, now) {
        Ok(_) => {},
        Err(e) => {
            return Err(e);
        },
    }
    match dao.update_entry(
        entry_id,
        encrypted_blob,
        expected_previous_data_hash,
        category_id,
        budget_access_token.claims.budget_id,
    ) {
        Ok(_) => Ok(()),
        Err(DaoError::OutOfDateHash) => Err(HttpErrorResponse::OutOfDate("Out of date hash")),
        Err(DaoError::ForeignKeyViolation) => Err(
            HttpErrorResponse::ForeignKeyDoesNotExist("No category matching ID"),
        ),
        Err(_) => Err(HttpErrorResponse::DoesNotExist("No entry with ID matching token")),
    }
}

/// Deletes an entry under a write capability.
pub fn delete_entry(dao: &mut Dao, budget_access_token: &BudgetAccessToken, now: u64, entry_id: Uid) -> (r:
    Result<(), HttpErrorResponse>)
    requires
        old(dao)@.wf(),
    ensures
        final(dao)@.wf(),
        !spec_write_granted(old(dao)@, *budget_access_token, now) ==> r is Err && final(dao)@
            == old(dao)@,
        r is Err ==> final(dao)@ == old(dao)@,
        spec_write_granted(old(dao)@, *budget_access_token, now) && crate::budget_store::has_entry(
            old(dao)@.entries,
            entry_id,
            budget_access_token.claims.budget_id,
        ) ==> r is Ok,
        spec_write_granted(old(dao)@, *budget_access_token, now) && !crate::budget_store::has_entry(
            old(dao)@.entries,
            entry_id,
            budget_access_token.claims.budget_id,
        ) ==> (r matches Err(e) && e is DoesNotExist),
        match r {
            Ok(_) => spec_write_granted(old(dao)@, *budget_access_token, now)
                && crate::budget_store::has_entry(
                old(dao)@.entries,
                entry_id,
                budget_access_token.claims.budget_id,
            ) && final(dao)@ == (crate::budget_store::DaoState {
                entries: old(dao)@.entries.remove(
                    crate::budget_store::entry_at(
                        old(dao)@.entries,
                        entry_id,
                        budget_access_token.claims.budget_id,
                    ),
                ),
                ..old(dao)@
            }),
            Err(_) => true,
        },
{
    match verify_read_write_access(budget_access_token, dao, now) {
        Ok(_) => {},
        Err(e) => {
            return Err(e);
        },
    }
    match dao.delete_entry(entry_id, budget_access_token.claims.budget_id) {
        Ok(_) => Ok(()),
        Err(_) => Err(HttpErrorResponse::DoesNotExist("No entry with ID matching token")),
    }
}

/// Creates a category under a write capability.
pub fn create_category(
    dao: &mut Dao,
    budget_access_token: &BudgetAccessToken,
    now: u64,
    encrypted_blob: &Vec<u8>,
) -> (r: Result<Uid, HttpErrorResponse>)
    requires
        old(dao)@.wf(),
    ensures
        final(dao)@.wf(),
        !spec_write_granted(old(dao)@, *budget_access_token, now) ==> r is Err && final(dao)@
            == old(dao)@,
        r is Err ==> final(dao)@ == old(dao)@,
        spec_write_granted(old(dao)@, *budget_access_token, now) && !has_budget(
            old(dao)@.budgets,
            budget_access_token.claims.budget_id,
        ) ==> (r matches Err(e) && e is DoesNotExist),
        spec_write_granted(old(dao)@, *budget_access_token, now) && has_budget(
            old(dao)@.budgets,
            budget_access_token.claims.budget_id,
        ) ==> (r is Ok || (r matches Err(e) && e is InternalError)),
        match r {
            Ok(id) => spec_write_granted(old(dao)@, *budget_access_token, now) && final(dao)@ == (
            crate::budget_store::DaoState {
                categories: old(dao)@.categories.push(
                    crate::models::CategoryView {
                        id,
                        budget_id: budget_access_token.claims.budget_id,
                        encrypted_blob: encrypted_blob@,
                        encrypted_blob_sha1_hash: sha1_of(encrypted_blob@),
                    },
                ),
                ..old(dao)@
            }),
            Err(_) => true,
        },
{
    match verify_read_write_access(budget_access_token, dao, now) {
        Ok(_) => {},
        Err(e) => {
            return Err(e);
        },
    }
    match dao.create_category(encrypted_blob, budget_access_token.claims.budget_id) {
        Ok(id) => Ok(id),
        Err(DaoError::NotFound) => Err(
            HttpErrorResponse::DoesNotExist("No budget with ID matching token"),
        ),
        Err(_) => Err(HttpErrorResponse::InternalError("Failed to create category")),
    }
}

/// A digest-guarded category edit under a write capability.
pub fn edit_category(
    dao: &mut Dao,
    budget_access_token: &BudgetAccessToken,
    now: u64,
    category_id: Uid,
    encrypted_blob: &Vec<u8>,
    expected_previous_data_hash: &Vec<u8>,
) -> (r: Result<(), HttpErrorResponse>)
    requires
        old(dao)@.wf(),
    ensures
        final(dao)@.wf(),
        !spec_write_granted(old(dao)@, *budget_access_token, now) ==> r is Err && final(dao)@
            == old(dao)@,
        r is Err ==> final(dao)@ == old(dao)@,
        spec_write_granted(old(dao)@, *budget_access_token, now)
            && !crate::budget_store::has_category(
            old(dao)@.categories,
            category_id,
            budget_access_token.claims.budget_id,
        ) ==> (r matches Err(e) && e is DoesNotExist),
        spec_write_granted(old(dao)@, *budget_access_token, now)
            && crate::budget_store::has_category(
            old(dao)@.categories,
            category_id,
            budget_access_token.claims.budget_id,
        ) && old(dao)@.categories[crate::budget_store::category_at(
            old(dao)@.categories,
            category_id,
            budget_access_token.claims.budget_id,
        )].encrypted_blob_sha1_hash != expected_previous_data_hash@ ==> (r matches Err(e) && e
            is OutOfDate),
        spec_write_granted(old(dao)@, *budget_access_token, now)
            && crate::budget_store::has_category(
            old(dao)@.categories,
            category_id,
            budget_access_token.claims.budget_id,
        ) && old(dao)@.categories[crate::budget_store::category_at(
            old(dao)@.categories,
            category_id,
            budget_access_token.claims.budget_id,
        )].encrypted_blob_sha1_hash == expected_previous_data_hash@ ==> r is Ok,
        match r {
            Ok(_) => {
                let bid = budget_access_token.claims.budget_id;
                &&& spec_write_granted(old(dao)@, *budget_access_token, now)
                &&& crate::budget_store::has_category(old(dao)@.categories, category_id, bid)
                &&& old(dao)@.categories[crate::budget_store::category_at(
                    old(dao)@.categories,
                    category_id,
                    bid,
                )].encrypted_blob_sha1_hash == expected_previous_data_hash@
                &&& final(dao)@ == (crate::budget_store::DaoState {
                    categories: old(dao)@.categories.update(
                        crate::budget_store::category_at(old(dao)@.categories, category_id, bid),
                        crate::models::CategoryView {
                            id: category_id,
                            budget_id: bid,
                            encrypted_blob: encrypted_blob@,
                            encrypted_blob_sha1_hash: sha1_of(encrypted_blob@),
                        },
                    ),
                    ..old(dao)@
                })
            },
            Err(_) => true,
        },
{
    match verify_read_write_access(budget_access_token, dao, now) {
        Ok(_) => {},
        Err(e) => {
            return Err(e);
        },
    }
    match dao.update_category(
        category_id,
        encrypted_blob,
        expected_previous_data_hash,
        budget_access_token.claims.budget_id,
    ) {
        Ok(_) => Ok(()),
        Err(DaoError::OutOfDateHash) => Err(HttpErrorResponse::OutOfDate("Out of date hash")),
        Err(_) => Err(HttpErrorResponse::DoesNotExist("No category with ID matching token")),
    }
}

/// Deletes a category under a write capability; entries filed under it are
/// kept, with their category cleared.
pub fn delete_category(
    dao: &mut Dao,
    budget_access_token: &BudgetAccessToken,
    now: u64,
    category_id: Uid,
) -> (r: Result<(), HttpErrorResponse>)
    requires
        old(dao)@.wf(),
    ensures
        final(dao)@.wf(),
        !spec_write_granted(old(dao)@, *budget_access_token, now) ==> r is Err && final(dao)@
            == old(dao)@,
        r is Err ==> final(dao)@ == old(dao)@,
        spec_write_granted(old(dao)@, *budget_access_token, now)
            && crate::budget_store::has_category(
            old(dao)@.categories,
            category_id,
            budget_access_token.claims.budget_id,
        ) ==> r is Ok,
        spec_write_granted(old(dao)@, *budget_access_token, now)
            && !crate::budget_store::has_category(
            old(dao)@.categories,
            category_id,
            budget_access_token.claims.budget_id,
        ) ==> (r matches Err(e) && e is DoesNotExist),
        match r {
            Ok(_) => {
                let bid = budget_access_token.claims.budget_id;
                &&& spec_write_granted(old(dao)@, *budget_access_token, now)
                &&& crate::budget_store::has_category(old(dao)@.categories, category_id, bid)
                &&& final(dao)@ == (crate::budget_store::DaoState {
                    categories: old(dao)@.categories.remove(
                        crate::budget_store::category_at(old(dao)@.categories, category_id, bid),
                    ),
                    entries: old(dao)@.entries.map_values(
                        |e: crate::models::EntryView| crate::budget_store::spec_clear_category(
                            e,
                            category_id,
                            bid,
                        ),
                    ),
                    ..old(dao)@
                })
            },
            Err(_) => true,
        },
{
    match verify_read_write_access(budget_access_token, dao, now) {
        Ok(_) => {},
        Err(e) => {
            return Err(e);
        },
    }
    match dao.delete_category(category_id, budget_access_token.claims.budget_id) {
        Ok(_) => Ok(()),
        Err(_) => Err(HttpErrorResponse::DoesNotExist("No category with ID matching token")),
    }
}

/// What a transport string decodes to, over the characters of the string.
pub open spec fn spec_decode_token(s: Seq<char>) -> Option<
    (BudgetAccessTokenClaims, Seq<u8>, Seq<u8>),
> {
    BudgetAccessToken::spec_decode(vstd::utf8::encode_utf8(s))
}

/// The claims a transport string decodes to.
pub open spec fn spec_decoded_claims(s: Seq<char>) -> BudgetAccessTokenClaims {
    match spec_decode_token(s) {
        Some(t) => t.0,
        None => vstd::pervasive::arbitrary(),
    }
}

/// The claims bytes a transport string decodes to.
pub open spec fn spec_decoded_claims_bytes(s: Seq<char>) -> Seq<u8> {
    match spec_decode_token(s) {
        Some(t) => t.1,
        None => vstd::pervasive::arbitrary(),
    }
}

/// The signature bytes a transport string decodes to.
pub open spec fn spec_decoded_signature(s: Seq<char>) -> Seq<u8> {
    match spec_decode_token(s) {
        Some(t) => t.2,
        None => vstd::pervasive::arbitrary(),
    }
}

/// One presented token is fully honored by the store at `now`: its claimed
/// capability row exists, the token is unexpired, and its signature
/// validates over its exact claims bytes against that row's public key.
pub open spec fn spec_token_granted(
    s: crate::budget_store::DaoState,
    token: Seq<char>,
    now: u64,
) -> bool {
    let c = spec_decoded_claims(token);
    &&& has_access_key(s.access_keys, c.key_id, c.budget_id)
    &&& now <= c.expiration
    &&& ed25519_valid(
        s.access_keys[access_key_at(s.access_keys, c.key_id, c.budget_id)].public_key,
        spec_decoded_claims_bytes(token),
        spec_decoded_signature(token),
    )
}

/// Reads several budgets at once: every presented token is decoded and then
/// verified against its own freshly fetched capability row — no budget is
/// returned unless each token's signature checks out — and the budgets come
/// back in the order the tokens were given.
#[verifier::loop_isolation(false)]
#[verifier::rlimit(60)]
pub fn get_multiple(dao: &Dao, budget_access_tokens: &Vec<String>, now: u64) -> (r: Result<
    Vec<Budget>,
    HttpErrorResponse,
>)
    requires
        dao@.wf(),
    ensures
        (exists|j: int|
            0 <= j < budget_access_tokens@.len() && (#[trigger] spec_decode_token(
                budget_access_tokens@[j]@,
            )) is None) ==> (r matches Err(e) && e is IncorrectlyFormed),
        (r matches Err(e) && e is IncorrectlyFormed) ==> exists|j: int|
            0 <= j < budget_access_tokens@.len() && (#[trigger] spec_decode_token(
                budget_access_tokens@[j]@,
            )) is None,
        (forall|j: int|
            0 <= j < budget_access_tokens@.len() ==> (#[trigger] spec_decode_token(
                budget_access_tokens@[j]@,
            )) is Some && spec_token_granted(dao@, budget_access_tokens@[j]@, now) && has_budget(
                dao@.budgets,
                spec_decoded_claims(budget_access_tokens@[j]@).budget_id,
            )) ==> r is Ok,
        match r {
            Ok(bs) => {
                &&& forall|j: int|
                    0 <= j < budget_access_tokens@.len() ==> (#[trigger] spec_decode_token(
                        budget_access_tokens@[j]@,
                    )) is Some
                &&& forall|j: int|
                    0 <= j < budget_access_tokens@.len() ==> #[trigger] spec_token_granted(
                        dao@,
                        budget_access_tokens@[j]@,
                        now,
                    )
                &&& bs@.len() == budget_access_tokens@.len()
                &&& forall|j: int|
                    0 <= j < budget_access_tokens@.len() ==> has_budget(
                        dao@.budgets,
                        (#[trigger] spec_decoded_claims(budget_access_tokens@[j]@)).budget_id,
                    ) && bs@[j]@ == dao@.budgets[budget_at(
                        dao@.budgets,
                        spec_decoded_claims(budget_access_tokens@[j]@).budget_id,
                    )]
            },
            Err(_) => true,
        },
{
    let n = budget_access_tokens.len();
    let mut decoded: Vec<BudgetAccessToken> = Vec::new();
    let mut budget_ids: Vec<Uid> = Vec::new();
    let mut i: usize = 0;
    while i < n
        invariant
            n == budget_access_tokens@.len(),
            i <= n,
            decoded@.len() == i,
            budget_ids@.len() == i,
            forall|j: int|
                0 <= j < i ==> (#[trigger] spec_decode_token(budget_access_tokens@[j]@)) == Some(
                    (decoded@[j].claims, decoded@[j].claims_bytes@, decoded@[j].signature@),
                ),
            forall|j: int| 0 <= j < i ==> #[trigger] budget_ids@[j] == decoded@[j].claims.budget_id,
        decreases n - i,
    {
        let t = match BudgetAccessToken::decode(budget_access_tokens[i].as_str()) {
            Ok(t) => t,
            Err(_) => {
                assert(spec_decode_token(budget_access_tokens@[i as int]@) is None);
                return Err(
                    HttpErrorResponse::IncorrectlyFormed(
                        "One of the provided budget access tokens had an invalid ID",
                    ),
                );
            },
        };
        budget_ids.push(t.claims.budget_id);
        decoded.push(t);
        i += 1;
    }
    // Every token is verified against its own freshly fetched key row.
    let mut j: usize = 0;
    while j < n
        invariant
            n == budget_access_tokens@.len(),
            decoded@.len() == n,
            budget_ids@.len() == n,
            forall|jj: int|
                0 <= jj < n ==> (#[trigger] spec_decode_token(budget_access_tokens@[jj]@)) == Some(
                    (decoded@[jj].claims, decoded@[jj].claims_bytes@, decoded@[jj].signature@),
                ),
            forall|jj: int|
                0 <= jj < n ==> #[trigger] budget_ids@[jj] == decoded@[jj].claims.budget_id,
            forall|jj: int|
                0 <= jj < j ==> #[trigger] spec_token_granted(
                    dao@,
                    budget_access_tokens@[jj]@,
                    now,
                ),
        decreases n - j,
    {
        match verify_read_access(&decoded[j], dao, now) {
            Ok(_) => {
                proof {
                    assert(spec_decoded_claims(budget_access_tokens@[j as int]@) == decoded@[
                        j as int].claims);
                    assert(spec_token_granted(dao@, budget_access_tokens@[j as int]@, now));
                }
            },
            Err(e) => {
                proof {
                    assert(spec_decoded_claims(budget_access_tokens@[j as int]@) == decoded@[
                        j as int].claims);
                    assert(spec_decoded_claims_bytes(budget_access_tokens@[j as int]@)
                        == decoded@[j as int].claims_bytes@);
                    assert(spec_decoded_signature(budget_access_tokens@[j as int]@) == decoded@[
                        j as int].signature@);
                    assert(!spec_token_granted(dao@, budget_access_tokens@[j as int]@, now));
                }
                return Err(e);
            },
        }
        j += 1;
    }
    let budgets = match dao.get_multiple_budgets_by_id(&budget_ids) {
        Ok(bs) => bs,
        Err(_) => {
            proof {
                let jj = choose|jj: int|
                    0 <= jj < budget_ids@.len() && !has_budget(
                        dao@.budgets,
                        #[trigger] budget_ids@[jj],
                    );
                assert(spec_decoded_claims(budget_access_tokens@[jj]@) == decoded@[jj].claims);
                assert(!has_budget(
                    dao@.budgets,
                    spec_decoded_claims(budget_access_tokens@[jj]@).budget_id,
                ));
            }
            return Err(
                HttpErrorResponse::DoesNotExist("One of the provided IDs did not match a budget"),
            );
        },
    };
    proof {
        assert forall|j: int|
            0 <= j < n implies has_budget(
            dao@.budgets,
            (#[trigger] spec_decoded_claims(budget_access_tokens@[j]@)).budget_id,
        ) && budgets@[j]@ == dao@.budgets[budget_at(
            dao@.budgets,
            spec_decoded_claims(budget_access_tokens@[j]@).budget_id,
        )] by {
            assert(spec_decode_token(budget_access_tokens@[j]@) == Some(
                (decoded@[j].claims, decoded@[j].claims_bytes@, decoded@[j].signature@),
            ));
            assert(spec_decoded_claims(budget_access_tokens@[j]@) == decoded@[j].claims);
            assert(budget_ids@[j] == decoded@[j].claims.budget_id);
            assert(budgets@[j]@ == dao@.budgets[budget_at(dao@.budgets, budget_ids@[j])]);
        }
    }
    Ok(budgets)
}

} // verus!