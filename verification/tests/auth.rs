use plm::auth::Argon2Helper;

#[test]
fn hash_then_verify() {
    let h = Argon2Helper::hash_password("s3cret").unwrap();
    assert!(h.starts_with("$argon2id$v=16$"));
    assert_ne!(h, "s3cret");
    assert_eq!(Argon2Helper::verify_password("s3cret".to_string(), h.clone()), Ok(true));
    assert_eq!(Argon2Helper::verify_password("other".to_string(), h), Ok(false));
}

#[test]
fn verify_rejects_malformed_hash() {
    assert!(Argon2Helper::verify_password("x".to_string(), "not a hash".to_string()).is_err());
}

#[test]
fn hashing_succeeds_for_ordinary_passwords() {
    assert!(Argon2Helper::hash_password("").is_ok());
    assert!(Argon2Helper::hash_password("pässwörd with spaces").is_ok());
}
