use bidt_glossar_server::auth::{
    authorize_admin, check_admin, cmp_salt_hash, decode_jwt, gen_jwt, gen_salt, gen_salt_hash,
    verify_password, AuthError, CredentialError, Role, TOKEN_LIFETIME_SECS,
};

const SECRET: &[u8] = b"unit-test-signing-secret";
const OTHER_SECRET: &[u8] = b"another-secret-entirely";
const NOW: usize = 1_700_000_000;

#[test]
fn test_gen_salt_hash_and_cmp() {
    let pw = "test123";
    let fake_pw = "fakepw123";
    let salt = gen_salt().unwrap();
    let wrong_salt = gen_salt().unwrap();
    // gen_salt returns different salts with each call (could be equal by
    // chance, but very unlikely)
    assert_ne!(salt, wrong_salt);
    let salt_hash = gen_salt_hash(&salt, pw);
    // different pw leads to different hash
    assert!(!cmp_salt_hash(fake_pw, &salt_hash));
    // same salt and pw leads to same hash
    assert!(cmp_salt_hash(pw, &salt_hash));
}

#[test]
fn test_jwt() {
    let fake_email = "test@test.com";
    let fake_role = Role::Admin;
    let jwt = gen_jwt(SECRET, NOW, fake_email, &fake_role).unwrap();
    if let Ok(claims) = decode_jwt(SECRET, NOW, &jwt) {
        // check that we can encode and decode without loss of information
        assert_eq!(claims.role, fake_role);
        assert_eq!(claims.email, fake_email);
    } else {
        panic!("token did not decode");
    }
}

#[test]
fn salt_is_sixteen_hex_chars() {
    let salt = gen_salt().unwrap();
    assert_eq!(salt.chars().count(), 16);
    assert!(salt.chars().all(|c| c.is_ascii_hexdigit() && !c.is_ascii_uppercase()));
    assert!(!salt.contains('$'));
}

#[test]
fn fixed_salt_round_trip() {
    let stored = gen_salt_hash("0123456789abcdef", "hunter2");
    assert!(cmp_salt_hash("hunter2", &stored));
    assert!(!cmp_salt_hash("hunter3", &stored));
    assert_eq!(verify_password("hunter2", &stored), Ok(()));
    assert_eq!(verify_password("hunter3", &stored), Err(CredentialError::Mismatch));
}

#[test]
fn stored_hash_shape() {
    let stored = gen_salt_hash("00ff", "pw");
    // salt, separator, base64 digest of 32 bytes (44 chars with padding)
    assert!(stored.starts_with("00ff$"));
    assert_eq!(stored.len(), 4 + 1 + 44);
}

#[test]
fn malformed_hash_is_an_error_not_a_crash() {
    assert_eq!(
        verify_password("pw", "no separator at all"),
        Err(CredentialError::MalformedHash)
    );
    assert_eq!(
        verify_password("pw", "salt$this is not base64!!!"),
        Err(CredentialError::MalformedHash)
    );
    assert!(!cmp_salt_hash("pw", ""));
}

#[test]
fn token_round_trip_carries_email_role_and_expiry() {
    let token = gen_jwt(SECRET, NOW, "a@b.com", &Role::Admin).unwrap();
    let claims = decode_jwt(SECRET, NOW, &token).unwrap();
    assert_eq!(claims.email, "a@b.com");
    assert_eq!(claims.role, Role::Admin);
    assert_eq!(claims.exp, NOW + TOKEN_LIFETIME_SECS);
}

#[test]
fn token_expires_exactly_at_its_expiry() {
    let token = gen_jwt(SECRET, NOW, "a@b.com", &Role::Admin).unwrap();
    let exp = NOW + TOKEN_LIFETIME_SECS;
    assert!(decode_jwt(SECRET, exp - 1, &token).is_ok());
    assert_eq!(decode_jwt(SECRET, exp, &token).unwrap_err(), AuthError::Expired);
    assert_eq!(decode_jwt(SECRET, exp + 5000, &token).unwrap_err(), AuthError::Expired);
}

#[test]
fn wrong_secret_is_an_invalid_signature() {
    let token = gen_jwt(SECRET, NOW, "a@b.com", &Role::Admin).unwrap();
    assert_eq!(
        decode_jwt(OTHER_SECRET, NOW, &token).unwrap_err(),
        AuthError::InvalidSignature
    );
}

#[test]
fn garbage_token_is_malformed() {
    assert_eq!(decode_jwt(SECRET, NOW, "garbage").unwrap_err(), AuthError::Malformed);
    assert_eq!(decode_jwt(SECRET, NOW, "").unwrap_err(), AuthError::Malformed);
}

#[test]
fn admin_check_needs_admin_role_and_freshness() {
    let admin_token = gen_jwt(SECRET, NOW, "a@b.com", &Role::Admin).unwrap();
    let user_token = gen_jwt(SECRET, NOW, "u@b.com", &Role::User).unwrap();
    assert!(check_admin(SECRET, NOW, &admin_token));
    // role other than admin
    assert!(!check_admin(SECRET, NOW, &user_token));
    // just expired admin token
    assert!(!check_admin(SECRET, NOW + TOKEN_LIFETIME_SECS, &admin_token));
    // tampered token
    assert!(!check_admin(OTHER_SECRET, NOW, &admin_token));
}

#[test]
fn gate_distinguishes_not_admin_from_bad_tokens() {
    let user_token = gen_jwt(SECRET, NOW, "u@b.com", &Role::User).unwrap();
    assert_eq!(
        authorize_admin(SECRET, NOW, &user_token).unwrap_err(),
        AuthError::NotAdmin
    );
    let admin_token = gen_jwt(SECRET, NOW, "a@b.com", &Role::Admin).unwrap();
    let claims = authorize_admin(SECRET, NOW, &admin_token).unwrap();
    assert_eq!(claims.email, "a@b.com");
    assert_eq!(
        authorize_admin(SECRET, NOW + TOKEN_LIFETIME_SECS, &admin_token).unwrap_err(),
        AuthError::Expired
    );
}
