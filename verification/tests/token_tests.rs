//! Checks of the token codec and verifier, building tokens the way a client
//! would: claims serialized to JSON, Ed25519-signed, hex and base64 encoded.

use base64::engine::general_purpose::URL_SAFE as b64_urlsafe;
use base64::Engine;
use ed25519_dalek::{Signer, SigningKey};
use entries_core::ids::Uid;
use entries_core::token::{BudgetAccessToken, BudgetAcceptToken, BudgetInviteSenderToken, TokenError};
use rand::rngs::OsRng;
use std::time::{Duration, SystemTime, UNIX_EPOCH};

fn uid_of(u: uuid::Uuid) -> Uid {
    let (hi, lo) = u.as_u64_pair();
    Uid { hi, lo }
}

fn now_secs() -> u64 {
    SystemTime::now().duration_since(UNIX_EPOCH).unwrap().as_secs()
}

#[test]
fn budget_access_token_test_verify() {
    let kid = uuid::Uuid::new_v4();
    let bid = uuid::Uuid::new_v4();
    let exp = (SystemTime::now() + Duration::from_secs(10))
        .duration_since(UNIX_EPOCH)
        .unwrap()
        .as_secs();

    let claims = format!(
        "{{\"key_id\":\"{}\",\"budget_id\":\"{}\",\"expiration\":{}}}",
        kid, bid, exp
    );

    let keypair = SigningKey::generate(&mut OsRng);
    let pub_key = keypair.verifying_key();
    let signature = hex::encode(keypair.sign(claims.as_bytes()).to_bytes());

    let token = b64_urlsafe.encode(format!("{claims}|{signature}"));
    let t = BudgetAccessToken::decode(&token).unwrap();

    assert_eq!(t.claims.key_id, uid_of(kid));
    assert_eq!(t.claims.budget_id, uid_of(bid));
    assert_eq!(t.claims.expiration, exp);

    let verified_claims = t.verify(pub_key.as_bytes(), now_secs()).unwrap();

    assert_eq!(verified_claims.key_id, uid_of(kid));
    assert_eq!(verified_claims.budget_id, uid_of(bid));
    assert_eq!(verified_claims.expiration, exp);

    let mut token = format!("{claims}|{signature}");

    // Make the signature invalid
    let last_char = token.pop().unwrap();
    if last_char == 'a' {
        token.push('b');
    } else {
        token.push('a');
    }

    let token = b64_urlsafe.encode(&token);
    assert!(BudgetAccessToken::decode(&token)
        .unwrap()
        .verify(pub_key.as_bytes(), now_secs())
        .is_err());

    let exp = (SystemTime::now() - Duration::from_secs(10))
        .duration_since(UNIX_EPOCH)
        .unwrap()
        .as_secs();

    let claims = format!(
        "{{\"key_id\":\"{}\",\"budget_id\":\"{}\",\"expiration\":{}}}",
        kid, bid, exp
    );

    let signature = hex::encode(keypair.sign(claims.as_bytes()).to_bytes());

    let token = b64_urlsafe.encode(format!("{claims}|{signature}"));
    assert!(BudgetAccessToken::decode(&token)
        .unwrap()
        .verify(pub_key.as_bytes(), now_secs())
        .is_err());
}

#[test]
fn budget_accept_token_test_verify() {
    let iid = uuid::Uuid::new_v4();
    let kid = uuid::Uuid::new_v4();
    let bid = uuid::Uuid::new_v4();
    let exp = (SystemTime::now() + Duration::from_secs(10))
        .duration_since(UNIX_EPOCH)
        .unwrap()
        .as_secs();

    let claims = format!(
        "{{\"iid\":\"{}\",\"kid\":\"{}\",\"bid\":\"{}\",\"exp\":{}}}",
        iid, kid, bid, exp
    );

    let keypair = SigningKey::generate(&mut OsRng);
    let pub_key = keypair.verifying_key();
    let signature = hex::encode(keypair.sign(claims.as_bytes()).to_bytes());

    let token = b64_urlsafe.encode(format!("{claims}|{signature}"));
    let verified_claims = BudgetAcceptToken::decode(&token)
        .unwrap()
        .verify(pub_key.as_bytes(), now_secs())
        .unwrap();

    assert_eq!(verified_claims.iid, uid_of(iid));
    assert_eq!(verified_claims.kid, uid_of(kid));
    assert_eq!(verified_claims.bid, uid_of(bid));
    assert_eq!(verified_claims.exp, exp);

    let mut token = format!("{claims}|{signature}");

    // Make the signature invalid
    let last_char = token.pop().unwrap();
    if last_char == 'a' {
        token.push('b');
    } else {
        token.push('a');
    }

    let token = b64_urlsafe.encode(&token);
    assert!(BudgetAcceptToken::decode(&token)
        .unwrap()
        .verify(pub_key.as_bytes(), now_secs())
        .is_err());

    let exp = (SystemTime::now() - Duration::from_secs(10))
        .duration_since(UNIX_EPOCH)
        .unwrap()
        .as_secs();

    let claims = format!(
        "{{\"iid\":\"{}\",\"kid\":\"{}\",\"bid\":\"{}\",\"exp\":{}}}",
        iid, kid, bid, exp
    );
    let signature = hex::encode(keypair.sign(claims.as_bytes()).to_bytes());

    let token = b64_urlsafe.encode(format!("{claims}|{signature}"));
    assert!(BudgetAcceptToken::decode(&token)
        .unwrap()
        .verify(pub_key.as_bytes(), now_secs())
        .is_err());
}

// Signing with the library then verifying with the matching public key hands
// the claims back, and only them.
#[test]
fn sign_then_verify_round_trip() {
    let claims = entries_core::claims::BudgetAccessTokenClaims {
        key_id: uid_of(uuid::Uuid::new_v4()),
        budget_id: uid_of(uuid::Uuid::new_v4()),
        expiration: now_secs() + 50,
    };
    let keypair = SigningKey::generate(&mut OsRng);
    let token = BudgetAccessToken::sign(&claims, keypair.to_bytes().as_slice());
    let t = BudgetAccessToken::decode(&token).unwrap();
    assert_eq!(t.claims, claims);
    let verified = t
        .verify(keypair.verifying_key().to_bytes().as_slice(), now_secs())
        .unwrap();
    assert_eq!(verified, claims);

    // A different key must not verify it.
    let other = SigningKey::generate(&mut OsRng);
    let e = t
        .verify(other.verifying_key().to_bytes().as_slice(), now_secs())
        .unwrap_err();
    assert_eq!(e, TokenError::BadSignature);
}

// An expired token is rejected even though its signature is correct.
#[test]
fn expired_token_with_good_signature() {
    let claims = entries_core::claims::BudgetInviteSenderTokenClaims {
        invite_id: uid_of(uuid::Uuid::new_v4()),
        expiration: 1000,
    };
    let keypair = SigningKey::generate(&mut OsRng);
    let token = BudgetInviteSenderToken::sign(&claims, keypair.to_bytes().as_slice());
    let t = BudgetInviteSenderToken::decode(&token).unwrap();
    let e = t
        .verify(keypair.verifying_key().to_bytes().as_slice(), 1001)
        .unwrap_err();
    assert_eq!(e, TokenError::Expired);
    // At the expiration moment itself it still verifies.
    let ok = t
        .verify(keypair.verifying_key().to_bytes().as_slice(), 1000)
        .unwrap();
    assert_eq!(ok, claims);
}

// Garbage transport strings are rejected as malformed.
#[test]
fn malformed_tokens() {
    assert_eq!(
        BudgetAccessToken::decode("not base64 at all!!!").unwrap_err(),
        TokenError::Malformed
    );
    // Valid base64 but no delimiter inside.
    let token = b64_urlsafe.encode("no delimiter here");
    assert_eq!(
        BudgetAccessToken::decode(&token).unwrap_err(),
        TokenError::Malformed
    );
    // Delimiter but claims are not claims JSON.
    let token = b64_urlsafe.encode("{}|aa");
    assert_eq!(
        BudgetAccessToken::decode(&token).unwrap_err(),
        TokenError::Malformed
    );
    // Odd-length signature hex.
    let token = b64_urlsafe.encode("{}|abc");
    assert_eq!(
        BudgetAccessToken::decode(&token).unwrap_err(),
        TokenError::Malformed
    );
}
