//! Scenario checks of the stores and the service layer: the concurrency
//! guard, the invitation lifecycle, nonce rotation and the one-time codes.

use ed25519_dalek::SigningKey;
use entries_core::auth_store;
use entries_core::budget_store;
use entries_core::handlers;
use entries_core::ids::Uid;
use entries_core::models::CategoryWithTempId;
use entries_core::token::{BudgetAccessToken, BudgetAcceptToken};
use entries_core::user_store;
use rand::rngs::OsRng;
use rsa::pkcs8::EncodePublicKey;
use sha1::Digest;

fn uid(n: u64) -> Uid {
    Uid { hi: n, lo: n.wrapping_mul(7) }
}

fn sha1(b: &[u8]) -> Vec<u8> {
    let mut h = sha1::Sha1::new();
    h.update(b);
    h.finalize().to_vec()
}

// The concurrency guard: two writers both present the digest D0 of blob B0;
// exactly one wins, the other is told the hash is out of date; a retry with
// the winner's digest succeeds.
#[test]
fn digest_guard_conflict_and_retry() {
    let mut dao = budget_store::Dao::new();
    let b0 = vec![1u8, 2, 3];
    let frame = dao
        .create_budget(&b0, &Vec::new(), &vec![9u8; 32])
        .unwrap();
    let d0 = sha1(&b0);

    let b1 = vec![4u8, 5];
    let b2 = vec![6u8];
    // First writer wins.
    dao.update_budget(frame.id, &b1, &d0).unwrap();
    // Second writer presented the stale digest.
    let e = dao.update_budget(frame.id, &b2, &d0).unwrap_err();
    assert_eq!(e, entries_core::errors::DaoError::OutOfDateHash);
    // Retrying with the fresh digest succeeds.
    let d1 = sha1(&b1);
    dao.update_budget(frame.id, &b2, &d1).unwrap();
    let stored = dao.get_budget(frame.id).unwrap();
    assert_eq!(stored.encrypted_blob, b2);
    assert_eq!(stored.encrypted_blob_sha1_hash, sha1(&b2));
}

// Sequential nonce reads never hand out the same value twice (the stored
// value rotates under each read).
#[test]
fn nonce_rotation_distinct_values() {
    let mut dao = auth_store::Dao::new();
    dao.signin_nonces.push(auth_store::SigninNonce {
        user_email: String::from("a@example.com"),
        nonce: 12345,
    });
    let mut seen = Vec::new();
    for _ in 0..5 {
        let n = dao.get_and_refresh_signin_nonce("a@example.com").unwrap();
        seen.push(n);
    }
    assert_eq!(seen[0], 12345);
    for i in 0..seen.len() {
        for j in 0..i {
            assert_ne!(seen[i], seen[j]);
        }
    }
    // An account with no nonce row is simply absent.
    assert!(dao.get_and_refresh_signin_nonce("b@example.com").is_err());
}

// One active code per account: a new issuance replaces the old one, and
// consumption deletes the row.
#[test]
fn otp_upsert_and_consume() {
    let mut dao = auth_store::Dao::new();
    let user = uid(7);
    dao.save_otp("11111111", user, 100).unwrap();
    dao.save_otp("22222222", user, 200).unwrap();
    let otp = dao.get_otp(user).unwrap();
    assert_eq!(otp.otp, "22222222");
    assert_eq!(otp.expiration, 200);
    dao.delete_otp(user).unwrap();
    assert!(dao.get_otp(user).is_err());
    // Sweeping removes codes that expired strictly before the given moment.
    dao.save_otp("33333333", user, 50).unwrap();
    dao.save_otp("44444444", uid(8), 500).unwrap();
    dao.delete_all_expired_otps(100).unwrap();
    assert!(dao.get_otp(user).is_err());
    assert!(dao.get_otp(uid(8)).is_ok());
}

// The blacklist answers repeat insertions and sweeps correctly.
#[test]
fn blacklist_check_and_sweep() {
    let mut dao = auth_store::Dao::new();
    let sig = vec![1u8, 2, 3, 4];
    assert!(!dao
        .check_is_token_on_blacklist_and_blacklist(&sig, 100)
        .unwrap());
    assert!(dao
        .check_is_token_on_blacklist_and_blacklist(&sig, 100)
        .unwrap());
    let removed = dao.clear_all_expired_tokens(101).unwrap();
    assert_eq!(removed, 1);
    assert!(!dao
        .check_is_token_on_blacklist_and_blacklist(&sig, 100)
        .unwrap());
}

fn make_recipient() -> (rsa::RsaPrivateKey, Vec<u8>) {
    let private = rsa::RsaPrivateKey::new(&mut OsRng, 2048).unwrap();
    let public_der = rsa::RsaPublicKey::from(&private)
        .to_public_key_der()
        .unwrap()
        .as_bytes()
        .to_vec();
    (private, public_der)
}

fn uid_from_be_bytes(b: &[u8]) -> Uid {
    let mut hi = [0u8; 8];
    let mut lo = [0u8; 8];
    hi.copy_from_slice(&b[0..8]);
    lo.copy_from_slice(&b[8..16]);
    Uid { hi: u64::from_be_bytes(hi), lo: u64::from_be_bytes(lo) }
}

// The whole handshake: the sender invites with read_only = false, the
// recipient decrypts the accept key material, signs an accept token and
// accepts; a capability key with read_only = false exists and an access
// token signed with the recipient's new key verifies against it; declining
// the now-consumed invitation is absent.
#[test]
fn invitation_accept_end_to_end() {
    let now: u64 = 1_000;
    let mut dao = budget_store::Dao::new();
    let mut users = user_store::Dao::new();

    // The budget owner.
    let owner_key = SigningKey::generate(&mut OsRng);
    let frame = dao
        .create_budget(
            &vec![10u8, 20],
            &Vec::new(),
            &owner_key.verifying_key().to_bytes().to_vec(),
        )
        .unwrap();
    let owner_claims = entries_core::claims::BudgetAccessTokenClaims {
        key_id: frame.access_key_id,
        budget_id: frame.id,
        expiration: now + 100,
    };
    let owner_token_str = BudgetAccessToken::sign(&owner_claims, owner_key.to_bytes().as_slice());
    let owner_token = BudgetAccessToken::decode(&owner_token_str).unwrap();

    // The recipient's long-lived RSA key pair, known to the user store.
    let (recipient_private, recipient_public_der) = make_recipient();
    users.users.push(blank_user(
        uid(42),
        "recipient@example.com",
        &recipient_public_der,
    ));

    let invitation_id = handlers::invite_user(
        &mut dao,
        &users,
        &owner_token,
        now,
        "sender@example.com",
        "recipient@example.com",
        &vec![1u8],
        &vec![2u8],
        &vec![3u8],
        &vec![4u8],
        &vec![5u8],
        now + 100,
        false,
        uid(50),
    )
    .unwrap();

    // The recipient lists pending invitations and decrypts the handshake.
    let pending = handlers::get_all_pending_invitations(&dao, "recipient@example.com");
    assert_eq!(pending.len(), 1);
    assert_eq!(pending[0].id, invitation_id);
    let accept_private: Vec<u8> = recipient_private
        .decrypt(rsa::Pkcs1v15Encrypt, &pending[0].budget_accept_key_encrypted)
        .unwrap();
    let accept_key_id_bytes = recipient_private
        .decrypt(rsa::Pkcs1v15Encrypt, &pending[0].budget_accept_key_id_encrypted)
        .unwrap();
    let accept_key_id = uid_from_be_bytes(&accept_key_id_bytes);

    // The recipient builds and signs the accept token.
    let accept_claims = entries_core::claims::BudgetAcceptTokenClaims {
        iid: invitation_id,
        kid: accept_key_id,
        bid: frame.id,
        exp: now + 100,
    };
    let accept_token_str = BudgetAcceptToken::sign(&accept_claims, &accept_private);
    let accept_token = BudgetAcceptToken::decode(&accept_token_str).unwrap();

    // The recipient's own key pair for the budget.
    let recipient_budget_key = SigningKey::generate(&mut OsRng);
    let budget = handlers::accept_invitation(
        &mut dao,
        &accept_token,
        now,
        "recipient@example.com",
        &recipient_budget_key.verifying_key().to_bytes().to_vec(),
    )
    .unwrap();
    assert_eq!(budget.id, frame.id);

    // The promoted capability key exists, bound read-write.
    let key = dao.get_public_budget_key(accept_key_id, frame.id).unwrap();
    assert!(!key.read_only);
    assert_eq!(key.public_key, recipient_budget_key.verifying_key().to_bytes().to_vec());

    // An access token signed by the recipient's new key verifies against it.
    let recipient_claims = entries_core::claims::BudgetAccessTokenClaims {
        key_id: accept_key_id,
        budget_id: frame.id,
        expiration: now + 100,
    };
    let recipient_token_str =
        BudgetAccessToken::sign(&recipient_claims, recipient_budget_key.to_bytes().as_slice());
    let recipient_token = BudgetAccessToken::decode(&recipient_token_str).unwrap();
    let fetched = handlers::get(&dao, &recipient_token, now).unwrap();
    assert_eq!(fetched.id, frame.id);

    // Declining the consumed invitation is absent.
    let e = handlers::decline_invitation(&mut dao, &accept_token, now, "recipient@example.com")
        .unwrap_err();
    assert!(matches!(
        e,
        entries_core::errors::HttpErrorResponse::DoesNotExist(_)
    ));
}

// Decline, then accept: the second terminal operation on the same
// invitation never succeeds.
#[test]
fn invitation_decline_then_accept() {
    let now: u64 = 1_000;
    let mut dao = budget_store::Dao::new();
    let mut users = user_store::Dao::new();

    let owner_key = SigningKey::generate(&mut OsRng);
    let frame = dao
        .create_budget(&vec![1u8], &Vec::new(), &owner_key.verifying_key().to_bytes().to_vec())
        .unwrap();
    let owner_claims = entries_core::claims::BudgetAccessTokenClaims {
        key_id: frame.access_key_id,
        budget_id: frame.id,
        expiration: now + 100,
    };
    let owner_token =
        BudgetAccessToken::decode(&BudgetAccessToken::sign(&owner_claims, owner_key.to_bytes().as_slice()))
            .unwrap();

    let (recipient_private, recipient_public_der) = make_recipient();
    users.users.push(blank_user(uid(43), "r2@example.com", &recipient_public_der));

    handlers::invite_user(
        &mut dao,
        &users,
        &owner_token,
        now,
        "s@example.com",
        "r2@example.com",
        &vec![1u8],
        &vec![2u8],
        &vec![3u8],
        &vec![4u8],
        &vec![5u8],
        now + 100,
        true,
        uid(51),
    )
    .unwrap();

    let pending = handlers::get_all_pending_invitations(&dao, "r2@example.com");
    let invitation_id = pending[0].id;
    let accept_private: Vec<u8> = recipient_private
        .decrypt(rsa::Pkcs1v15Encrypt, &pending[0].budget_accept_key_encrypted)
        .unwrap();
    let accept_key_id = uid_from_be_bytes(
        &recipient_private
            .decrypt(rsa::Pkcs1v15Encrypt, &pending[0].budget_accept_key_id_encrypted)
            .unwrap(),
    );
    let accept_claims = entries_core::claims::BudgetAcceptTokenClaims {
        iid: invitation_id,
        kid: accept_key_id,
        bid: frame.id,
        exp: now + 100,
    };
    let accept_token =
        BudgetAcceptToken::decode(&BudgetAcceptToken::sign(&accept_claims, &accept_private)).unwrap();

    handlers::decline_invitation(&mut dao, &accept_token, now, "r2@example.com").unwrap();

    // Accepting afterwards is absent; no capability key was created.
    let e = handlers::accept_invitation(
        &mut dao,
        &accept_token,
        now,
        "r2@example.com",
        &vec![7u8; 32],
    )
    .unwrap_err();
    assert!(matches!(
        e,
        entries_core::errors::HttpErrorResponse::DoesNotExist(_)
    ));
    assert!(dao.get_public_budget_key(accept_key_id, frame.id).is_err());
    // Declining twice is just as absent.
    let e = handlers::decline_invitation(&mut dao, &accept_token, now, "r2@example.com")
        .unwrap_err();
    assert!(matches!(
        e,
        entries_core::errors::HttpErrorResponse::DoesNotExist(_)
    ));
}

// A read-only capability cannot write, and a stale digest through the edit
// handler surfaces as out of date.
#[test]
fn edit_respects_read_only_and_digest() {
    let now: u64 = 5;
    let mut dao = budget_store::Dao::new();
    let owner_key = SigningKey::generate(&mut OsRng);
    let frame = dao
        .create_budget(&vec![1u8, 1], &Vec::new(), &owner_key.verifying_key().to_bytes().to_vec())
        .unwrap();
    let claims = entries_core::claims::BudgetAccessTokenClaims {
        key_id: frame.access_key_id,
        budget_id: frame.id,
        expiration: now + 100,
    };
    let token =
        BudgetAccessToken::decode(&BudgetAccessToken::sign(&claims, owner_key.to_bytes().as_slice()))
            .unwrap();

    // Stale digest: out of date, nothing written.
    let e = handlers::edit(&mut dao, &token, now, &vec![9u8], &vec![0u8; 20]).unwrap_err();
    assert!(matches!(e, entries_core::errors::HttpErrorResponse::OutOfDate(_)));
    assert_eq!(dao.get_budget(frame.id).unwrap().encrypted_blob, vec![1u8, 1]);

    // Fresh digest: accepted.
    handlers::edit(&mut dao, &token, now, &vec![9u8], &sha1(&[1u8, 1])).unwrap();
    assert_eq!(dao.get_budget(frame.id).unwrap().encrypted_blob, vec![9u8]);

    // Flip the key to read-only and watch the distinct authorization error.
    for k in dao.access_keys.iter_mut() {
        k.read_only = true;
    }
    let e = handlers::edit(&mut dao, &token, now, &vec![8u8], &sha1(&[9u8])).unwrap_err();
    assert!(matches!(
        e,
        entries_core::errors::HttpErrorResponse::ReadOnlyAccess(_)
    ));
}

// Deleting a category keeps its entries, with the category cleared.
#[test]
fn deleting_category_clears_entries() {
    let now: u64 = 5;
    let mut dao = budget_store::Dao::new();
    let owner_key = SigningKey::generate(&mut OsRng);
    let frame = dao
        .create_budget(
            &vec![1u8],
            &vec![CategoryWithTempId { temp_id: 1, encrypted_blob: vec![2u8] }],
            &owner_key.verifying_key().to_bytes().to_vec(),
        )
        .unwrap();
    let category_id = frame.category_ids[0];
    let claims = entries_core::claims::BudgetAccessTokenClaims {
        key_id: frame.access_key_id,
        budget_id: frame.id,
        expiration: now + 100,
    };
    let token =
        BudgetAccessToken::decode(&BudgetAccessToken::sign(&claims, owner_key.to_bytes().as_slice()))
            .unwrap();

    let entry_id =
        handlers::create_entry(&mut dao, &token, now, &vec![3u8], Some(category_id)).unwrap();
    handlers::delete_category(&mut dao, &token, now, category_id).unwrap();
    assert_eq!(dao.entries.len(), 1);
    assert_eq!(dao.entries[0].id, entry_id);
    assert_eq!(dao.entries[0].category_id, None);
}

fn blank_user(id: Uid, email: &str, public_key_der: &[u8]) -> user_store::User {
    user_store::User {
        id,
        email: String::from(email),
        is_verified: true,
        created_timestamp: 0,
        public_key_id: Uid { hi: id.hi, lo: id.lo.wrapping_add(1) },
        public_key: public_key_der.to_vec(),
        auth_string_hash: String::from("hash"),
        auth_string_salt: vec![0u8],
        auth_string_memory_cost_kib: 1,
        auth_string_parallelism_factor: 1,
        auth_string_iters: 1,
        password_encryption_salt: vec![0u8],
        password_encryption_memory_cost_kib: 1,
        password_encryption_parallelism_factor: 1,
        password_encryption_iters: 1,
        recovery_key_salt: vec![0u8],
        recovery_key_memory_cost_kib: 1,
        recovery_key_parallelism_factor: 1,
        recovery_key_iters: 1,
        encryption_key_encrypted_with_password: vec![0u8],
        encryption_key_encrypted_with_recovery_key: vec![0u8],
    }
}

// An accept key row whose expiration has passed is treated exactly like an
// absent one, for accepting and for declining alike — a prober cannot tell
// an expired invitation from a missing one.
#[test]
fn expired_accept_key_is_treated_as_absent() {
    let now: u64 = 100;
    let mut dao = budget_store::Dao::new();
    dao.accept_keys.push(entries_core::models::BudgetAcceptKey {
        key_id: uid(1),
        budget_id: uid(2),
        public_key: vec![0u8; 32],
        read_only: false,
        expiration: 50,
    });
    let claims = entries_core::claims::BudgetAcceptTokenClaims {
        iid: uid(3),
        kid: uid(1),
        bid: uid(2),
        exp: now + 10,
    };
    let some_key = SigningKey::generate(&mut OsRng);
    let token =
        BudgetAcceptToken::decode(&BudgetAcceptToken::sign(&claims, some_key.to_bytes().as_slice()))
            .unwrap();
    let e = handlers::accept_invitation(&mut dao, &token, now, "x@example.com", &vec![1u8; 32])
        .unwrap_err();
    assert!(matches!(
        e,
        entries_core::errors::HttpErrorResponse::DoesNotExist(_)
    ));
    let e = handlers::decline_invitation(&mut dao, &token, now, "x@example.com").unwrap_err();
    assert!(matches!(
        e,
        entries_core::errors::HttpErrorResponse::DoesNotExist(_)
    ));
    // The row is untouched either way.
    assert_eq!(dao.accept_keys.len(), 1);
}

// The bulk read verifies every presented token against its own stored key:
// valid tokens fetch their budgets in order, a token signed by the wrong
// key sinks the whole batch, and an undecodable token is malformed.
#[test]
fn get_multiple_budgets_checks_every_token() {
    let now: u64 = 10;
    let mut dao = budget_store::Dao::new();
    let key_a = SigningKey::generate(&mut OsRng);
    let key_b = SigningKey::generate(&mut OsRng);
    let frame_a = dao
        .create_budget(&vec![1u8], &Vec::new(), &key_a.verifying_key().to_bytes().to_vec())
        .unwrap();
    let frame_b = dao
        .create_budget(&vec![2u8, 2], &Vec::new(), &key_b.verifying_key().to_bytes().to_vec())
        .unwrap();
    let claims_a = entries_core::claims::BudgetAccessTokenClaims {
        key_id: frame_a.access_key_id,
        budget_id: frame_a.id,
        expiration: now + 100,
    };
    let claims_b = entries_core::claims::BudgetAccessTokenClaims {
        key_id: frame_b.access_key_id,
        budget_id: frame_b.id,
        expiration: now + 100,
    };
    let token_a = BudgetAccessToken::sign(&claims_a, key_a.to_bytes().as_slice());
    let token_b = BudgetAccessToken::sign(&claims_b, key_b.to_bytes().as_slice());

    let budgets =
        handlers::get_multiple(&dao, &vec![token_a.clone(), token_b.clone()], now).unwrap();
    assert_eq!(budgets.len(), 2);
    assert_eq!(budgets[0].encrypted_blob, vec![1u8]);
    assert_eq!(budgets[1].encrypted_blob, vec![2u8, 2]);

    // A token for budget B signed with budget A's key fails the batch.
    let forged = BudgetAccessToken::sign(&claims_b, key_a.to_bytes().as_slice());
    let e = handlers::get_multiple(&dao, &vec![token_a.clone(), forged], now).unwrap_err();
    assert!(matches!(
        e,
        entries_core::errors::HttpErrorResponse::DoesNotExist(_)
    ));

    // An undecodable token is malformed.
    let e = handlers::get_multiple(&dao, &vec![token_a, String::from("???")], now).unwrap_err();
    assert!(matches!(
        e,
        entries_core::errors::HttpErrorResponse::IncorrectlyFormed(_)
    ));
}

// User deletion cascades through the capability store: the listed key is
// gone, a budget that kept another key survives, and the keyless one falls.
#[test]
fn delete_user_cascade_spares_shared_budget() {
    let mut users = user_store::Dao::new();
    let mut budgets = budget_store::Dao::new();
    // A budget shared by two keys, and a budget owned by the doomed user alone.
    let shared = budgets
        .create_budget(&vec![1u8], &Vec::new(), &vec![1u8; 32])
        .unwrap();
    let second_key = uid(77);
    budgets.access_keys.push(entries_core::models::BudgetAccessKey {
        key_id: second_key,
        budget_id: shared.id,
        public_key: vec![2u8; 32],
        read_only: true,
    });
    let solo = budgets
        .create_budget(&vec![2u8], &Vec::new(), &vec![3u8; 32])
        .unwrap();

    let doomed = uid(9);
    users.users.push(blank_user(doomed, "doomed@example.com", &[4u8; 32]));
    users
        .save_user_deletion_budget_keys(
            &vec![shared.access_key_id, solo.access_key_id],
            doomed,
            100,
        )
        .unwrap();
    users.delete_user(doomed, &mut budgets).unwrap();

    // Listed keys are gone; the unlisted key survives.
    assert!(budgets.get_public_budget_key(shared.access_key_id, shared.id).is_err());
    assert!(budgets.get_public_budget_key(solo.access_key_id, solo.id).is_err());
    assert!(budgets.get_public_budget_key(second_key, shared.id).is_ok());
    // The shared budget kept a key and survives; the solo budget fell.
    assert!(budgets.get_budget(shared.id).is_ok());
    assert!(budgets.get_budget(solo.id).is_err());
    assert!(users.get_user_public_key("doomed@example.com").is_err());
}
