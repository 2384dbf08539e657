//! Checks of the identifier text form, the user store and the job
//! bookkeeping.

use entries_core::auth_store;
use entries_core::budget_store;
use entries_core::ids::Uid;
use entries_core::jobs::{get_last_run_time, ClearOtpAttemptsJob, JobRegistryItem};
use entries_core::user_store;
use sha1::Digest;

fn uid(n: u64) -> Uid {
    Uid { hi: n, lo: n.wrapping_mul(3) }
}

// The canonical text form of an identifier matches the usual hyphenated
// rendering.
#[test]
fn uid_text_form() {
    let u = uuid::Uuid::parse_str("67e55044-10b1-426f-9247-bb680e5fe0c8").unwrap();
    let (hi, lo) = u.as_u64_pair();
    let mut out: Vec<u8> = Vec::new();
    entries_core::ids::push_uid(&mut out, &Uid { hi, lo });
    assert_eq!(
        String::from_utf8(out.clone()).unwrap(),
        "67e55044-10b1-426f-9247-bb680e5fe0c8"
    );
    let parsed = entries_core::ids::parse_uid_at(&out, 0).unwrap();
    assert_eq!(parsed, Uid { hi, lo });
}

// Creating a user seeds the account, its blobs, its nonce and its backup
// codes together; the digest-guarded blob updates behave like the budget's.
#[test]
fn user_lifecycle() {
    let mut dao = user_store::Dao::new();
    let user_id = dao
        .create_user(
            "Person@Example.com",
            "argonhash",
            &vec![1u8],
            1,
            2,
            3,
            &vec![2u8],
            4,
            5,
            6,
            &vec![3u8],
            7,
            8,
            9,
            &vec![4u8],
            &vec![5u8],
            uid(1),
            &vec![6u8; 32],
            &vec![7u8],
            &vec![8u8],
            &vec![String::from("code1"), String::from("code2")],
            1000,
        )
        .unwrap();
    // Email is stored lowercased, and the key is found under it.
    let key = dao.get_user_public_key("person@example.com").unwrap();
    assert_eq!(key.value, vec![6u8; 32]);
    assert!(dao.get_user_public_key("Person@Example.com").is_err());
    assert_eq!(dao.user_backup_codes.len(), 2);
    assert_eq!(dao.signin_nonces.len(), 1);

    // Preferences update is digest-guarded.
    let mut h = sha1::Sha1::new();
    h.update(&[7u8]);
    let d0 = h.finalize().to_vec();
    assert!(dao
        .update_user_prefs(user_id, &vec![9u8], &vec![0u8; 20])
        .is_err());
    dao.update_user_prefs(user_id, &vec![9u8], &d0).unwrap();

    // Key rotation is guarded by the previous key identifier.
    let e = dao
        .rotate_user_public_key(user_id, uid(2), &vec![1u8; 32], uid(99))
        .unwrap_err();
    assert_eq!(e, entries_core::errors::DaoError::OutOfDateHash);
    dao.rotate_user_public_key(user_id, uid(2), &vec![1u8; 32], uid(1))
        .unwrap();
    assert_eq!(
        dao.get_user_public_key("person@example.com").unwrap().value,
        vec![1u8; 32]
    );

    // Verification flips the flag.
    dao.verify_user_creation(user_id).unwrap();
    assert!(dao.users[0].is_verified);

    // Deletion requests round-trip.
    dao.initiate_user_deletion(user_id, 2000).unwrap();
    assert!(dao.check_is_user_listed_for_deletion(user_id).unwrap());
    dao.cancel_user_deletion(user_id).unwrap();
    assert!(!dao.check_is_user_listed_for_deletion(user_id).unwrap());

    // Full deletion drops the user and the listed capability keys.
    let mut budgets = budget_store::Dao::new();
    let frame = budgets
        .create_budget(&vec![1u8], &Vec::new(), &vec![2u8; 32])
        .unwrap();
    dao.save_user_deletion_budget_keys(&vec![frame.access_key_id], user_id, 5000)
        .unwrap();
    dao.delete_user(user_id, &mut budgets).unwrap();
    assert!(dao.get_user_public_key("person@example.com").is_err());
    assert!(budgets
        .get_public_budget_key(frame.access_key_id, frame.id)
        .is_err());
    // The budget lost its last key, so it fell too.
    assert!(budgets.get_budget(frame.id).is_err());
}

// The job registry hands back recorded run times, or the current moment for
// an unknown job.
#[test]
fn job_registry_and_otp_job() {
    let registry = vec![
        JobRegistryItem { job_name: String::from("Clear OTP Attempts"), last_run_timestamp: 11 },
        JobRegistryItem { job_name: String::from("Something Else"), last_run_timestamp: 22 },
    ];
    assert_eq!(get_last_run_time("Clear OTP Attempts", &registry, 99), 11);
    assert_eq!(get_last_run_time("Unknown", &registry, 99), 99);

    let mut job = ClearOtpAttemptsJob::new(60, 300, 1000);
    assert_eq!(job.last_run_time(), 1000);
    assert!(!job.is_running());
    job.set_running_state_running();
    assert!(job.is_running());
    job.set_last_run_time(1500);
    assert_eq!(job.last_run_time(), 1500);
    job.set_running_state_not_running();
    assert!(!job.is_running());

    let mut auth = auth_store::Dao::new();
    auth.user_otps.push(auth_store::UserOtp {
        user_id: uid(1),
        otp: String::from("12345678"),
        expiration: 100,
    });
    auth.user_otps.push(auth_store::UserOtp {
        user_id: uid(2),
        otp: String::from("87654321"),
        expiration: 5000,
    });
    job.run_handler_func(&mut auth, 1500).unwrap();
    assert_eq!(auth.user_otps.len(), 1);
    assert_eq!(auth.user_otps[0].otp, "87654321");
}

// The auth store joins the account row and the nonce row.
#[test]
fn auth_string_data_and_status() {
    let mut dao = auth_store::Dao::new();
    dao.users.push(auth_store::AuthUser {
        user_id: uid(1),
        email: String::from("x@example.com"),
        is_verified: true,
        auth_string_hash: String::from("h"),
        auth_string_salt: vec![9u8],
        auth_string_memory_cost_kib: 1,
        auth_string_parallelism_factor: 2,
        auth_string_iters: 3,
    });
    // No nonce row yet: absent.
    assert!(dao.get_auth_string_data_signin_nonce("x@example.com").is_err());
    dao.signin_nonces.push(auth_store::SigninNonce {
        user_email: String::from("x@example.com"),
        nonce: -7,
    });
    let out = dao.get_auth_string_data_signin_nonce("x@example.com").unwrap();
    assert_eq!(out.auth_string_salt, vec![9u8]);
    assert_eq!(out.nonce, -7);

    let h = dao.get_user_auth_string_hash_and_status("x@example.com").unwrap();
    assert!(h.is_user_verified);
    assert_eq!(h.auth_string_hash, "h");
    assert!(dao.get_user_auth_string_hash_and_status("y@example.com").is_err());
}
