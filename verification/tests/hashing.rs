use asfa::errors::StoreError;
use asfa::hashing::get_hash;

#[test]
fn short_token_matches_known_digest() {
    // sha256("abc"), URL-safe base64, truncated to 8 characters
    let token = get_hash(&b"abc".to_vec(), 8).unwrap();
    assert_eq!(token, "ungWv48B");
}

#[test]
fn long_token_uses_wide_digest() {
    // sha512("abc"), URL-safe base64, truncated to 40 characters
    let token = get_hash(&b"abc".to_vec(), 40).unwrap();
    assert_eq!(token, "3a81oZNherrMQXNJriBBMRLm-k6JqX6iCp7u5ktV");
}

#[test]
fn tokens_are_truncations_of_full_encodings() {
    // compare against an independent reconstruction from the published
    // digest of "abc"
    let narrow =
        hex::decode("ba7816bf8f01cfea414140de5dae2223b00361a396177a9cb410ff61f20015ad").unwrap();
    let full_narrow = base64::encode_config(narrow, base64::URL_SAFE);
    let tok8 = get_hash(&b"abc".to_vec(), 8).unwrap();
    assert_eq!(tok8.as_str(), &full_narrow[..8]);

    let tok40 = get_hash(&b"abc".to_vec(), 40).unwrap();
    let tok64 = get_hash(&b"abc".to_vec(), 64).unwrap();
    // both long tokens truncate one and the same wide encoding
    assert_eq!(&tok64[..40], tok40.as_str());
    // while the narrow and the wide algorithm disagree
    assert_ne!(&tok40[..8], &tok8[..8]);
}

#[test]
fn hashing_is_deterministic_and_content_sensitive() {
    let a1 = get_hash(&b"hello world".to_vec(), 16).unwrap();
    let a2 = get_hash(&b"hello world".to_vec(), 16).unwrap();
    let b = get_hash(&b"hello worle".to_vec(), 16).unwrap();
    assert_eq!(a1, a2);
    assert_ne!(a1, b);
    assert_eq!(a1.chars().count(), 16);
}

#[test]
fn hash_length_bounds_are_enforced() {
    assert!(matches!(
        get_hash(&b"abc".to_vec(), 0),
        Err(StoreError::InvalidHashLength { length: 0 })
    ));
    assert!(matches!(
        get_hash(&b"abc".to_vec(), 65),
        Err(StoreError::InvalidHashLength { length: 65 })
    ));
    assert!(get_hash(&b"abc".to_vec(), 1).is_ok());
    assert!(get_hash(&b"abc".to_vec(), 64).is_ok());
}

#[test]
fn empty_content_hashes_like_any_other() {
    let token = get_hash(&Vec::new(), 8).unwrap();
    assert_eq!(token, "47DEQpj8");
}
