use asfa::errors::StoreError;
use asfa::file_listing::RemotePath;
use asfa::hashing::get_hash;
use asfa::verification::{
    chunk_paths, expected_length, expected_token, verify_outcomes, verify_report, VerifyOutcome,
};

#[test]
fn untouched_entry_verifies() {
    // the folder name is the content's token; the remote side re-hashes
    // the same bytes at the same length
    let token = get_hash(&b"hello world".to_vec(), 12).unwrap();
    let entry = RemotePath::new(token.clone(), "hello.txt".to_string());
    let expected = vec![expected_token(&entry)];
    let actual = vec![get_hash(&b"hello world".to_vec(), 12).unwrap()];
    let outcomes = verify_outcomes(&expected, &actual);
    assert!(outcomes[0].is_verified());
    assert!(verify_report(&outcomes).is_ok());
}

#[test]
fn altered_entry_reports_both_tokens() {
    let original = get_hash(&b"hello world".to_vec(), 12).unwrap();
    let truncated = get_hash(&b"hello".to_vec(), 12).unwrap();
    let outcomes = verify_outcomes(&vec![original.clone()], &vec![truncated.clone()]);
    match &outcomes[0] {
        VerifyOutcome::Mismatch { expected, actual } => {
            assert_eq!(expected, &original);
            assert_eq!(actual, &truncated);
        }
        VerifyOutcome::Verified => panic!("altered content must not verify"),
    }
}

#[test]
fn the_sweep_completes_and_counts_all_failures() {
    let expected = vec!["aa".to_string(), "bb".to_string(), "cc".to_string(), "dd".to_string()];
    let actual = vec!["aa".to_string(), "xx".to_string(), "cc".to_string(), "yy".to_string()];
    let outcomes = verify_outcomes(&expected, &actual);
    assert_eq!(outcomes.len(), 4);
    assert!(outcomes[0].is_verified());
    assert!(!outcomes[1].is_verified());
    assert!(outcomes[2].is_verified());
    assert!(!outcomes[3].is_verified());
    match verify_report(&outcomes) {
        Err(StoreError::VerificationMismatch { failed }) => assert_eq!(failed, 2),
        other => panic!("unexpected: {:?}", other.is_ok()),
    }
}

#[test]
fn batches_are_bounded_and_keep_order() {
    let paths: Vec<String> = (0..5).map(|i| format!("p{}", i)).collect();
    let batches = chunk_paths(&paths, 2);
    assert_eq!(batches.len(), 3);
    assert_eq!(batches[0], vec!["p0".to_string(), "p1".to_string()]);
    assert_eq!(batches[1], vec!["p2".to_string(), "p3".to_string()]);
    assert_eq!(batches[2], vec!["p4".to_string()]);
    let empty = chunk_paths(&Vec::new(), 16);
    assert_eq!(empty.len(), 0);
}

#[test]
fn expected_length_follows_the_folder_name() {
    let short = RemotePath::new("ungWv48B".to_string(), "a.txt".to_string());
    assert_eq!(expected_length(&short), 8);
    let wide = RemotePath::new(
        "3a81oZNherrMQXNJriBBMRLm-k6JqX6iCp7u5ktV".to_string(),
        "a.txt".to_string(),
    );
    assert_eq!(expected_length(&wide), 40);
    let overlong = RemotePath::new("x".repeat(100), "a.txt".to_string());
    assert_eq!(expected_length(&overlong), 64);
}
