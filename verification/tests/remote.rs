use asfa::errors::StoreError;
use asfa::file_listing::FileStat;
use asfa::remote::{
    check_remote_hash_exit, ensure_port, parse_bulk_stats, parse_file_listing,
    parse_remote_hashes, prepend_base_folder, remote_hash_command, reorder_stats,
    ExecutedRemoteCommand,
};

fn command(exit_status: i32, stdout: &str, stderr: &str) -> ExecutedRemoteCommand {
    ExecutedRemoteCommand::from_parts(
        "true".to_string(),
        exit_status,
        stdout.to_string(),
        stderr.to_string(),
    )
}

#[test]
fn ensure_port_appends_the_default() {
    assert_eq!(ensure_port("example.org"), "example.org:22");
    assert_eq!(ensure_port("example.org:2222"), "example.org:2222");
}

#[test]
fn prepend_base_folder_joins_with_slash() {
    assert_eq!(prepend_base_folder("/srv/store", "ab/x.txt"), "/srv/store/ab/x.txt");
}

#[test]
fn expect_passes_success_and_carries_failures() {
    assert!(command(0, "", "").expect("boom").is_ok());
    match command(3, "", "").expect("boom") {
        Err(StoreError::RemoteCommandFailure { exit_status, message }) => {
            assert_eq!(exit_status, 3);
            assert_eq!(message, "boom");
        }
        other => panic!("unexpected: {:?}", other.is_ok()),
    }
}

#[test]
fn expect_with_chooses_the_message_from_the_exit_status() {
    let describe = |rc: i32| -> String {
        if rc == 127 {
            "tool not found on remote site".to_string()
        } else {
            "unexpected remote error".to_string()
        }
    };
    assert!(command(0, "", "").expect_with(describe).is_ok());
    match command(127, "", "").expect_with(describe) {
        Err(StoreError::RemoteCommandFailure { exit_status, message }) => {
            assert_eq!(exit_status, 127);
            assert_eq!(message, "tool not found on remote site");
        }
        other => panic!("unexpected: {:?}", other.is_ok()),
    }
}

#[test]
fn hash_command_selects_the_tool_by_length() {
    let paths = vec!["/srv/store/aa/x".to_string(), "/srv/store/bb/y z".to_string()];
    let cmd = remote_hash_command(&paths, 8).unwrap();
    assert_eq!(cmd, "sha256sum \"/srv/store/aa/x\" \"/srv/store/bb/y z\"");
    let cmd = remote_hash_command(&paths, 40).unwrap();
    assert_eq!(cmd, "sha512sum \"/srv/store/aa/x\" \"/srv/store/bb/y z\"");
    assert!(matches!(
        remote_hash_command(&paths, 0),
        Err(StoreError::InvalidHashLength { length: 0 })
    ));
}

#[test]
fn reserved_exit_code_means_tool_missing() {
    match check_remote_hash_exit(&command(127, "", ""), 8) {
        Err(StoreError::RemoteToolMissing { tool }) => assert_eq!(tool, "sha256sum"),
        other => panic!("unexpected: {:?}", other.is_ok()),
    }
    match check_remote_hash_exit(&command(127, "", ""), 40) {
        Err(StoreError::RemoteToolMissing { tool }) => assert_eq!(tool, "sha512sum"),
        other => panic!("unexpected: {:?}", other.is_ok()),
    }
    assert!(matches!(
        check_remote_hash_exit(&command(1, "", "denied"), 8),
        Err(StoreError::RemoteCommandFailure { exit_status: 1, .. })
    ));
    assert!(check_remote_hash_exit(&command(0, "", ""), 8).is_ok());
}

#[test]
fn remote_hashes_are_reencoded_and_truncated() {
    // what sha256sum prints for "abc" and for "hello world"
    let stdout = "ba7816bf8f01cfea414140de5dae2223b00361a396177a9cb410ff61f20015ad  /srv/store/aa/abc.txt\n\
                  b94d27b9934d3e08a52e52d7da7dabfac484efe37a5380ee9088f7ace2efcde9  /srv/store/bb/hello.txt\n";
    let tokens = parse_remote_hashes(stdout, 8, 2).unwrap();
    assert_eq!(tokens, vec!["ungWv48B".to_string(), "uU0nuZNN".to_string()]);
}

#[test]
fn unreadable_hash_lines_violate_the_count() {
    let stdout = "not-hex-at-all  /srv/store/aa/abc.txt\n";
    assert!(matches!(
        parse_remote_hashes(stdout, 8, 1),
        Err(StoreError::HashCountMismatch { expected: 1, actual: 0 })
    ));
    let stdout = "ba7816bf8f01cfea414140de5dae2223b00361a396177a9cb410ff61f20015ad  x\n";
    assert!(matches!(
        parse_remote_hashes(stdout, 8, 2),
        Err(StoreError::HashCountMismatch { expected: 2, actual: 1 })
    ));
}

#[test]
fn bulk_stats_are_parsed_and_reordered() {
    let raw = "1700000100 2048 /srv/store/aa/one.txt\n\
               1700000200 512 /srv/store/bb/two words.txt\n\
               garbage line\n";
    let table = parse_bulk_stats(raw);
    assert_eq!(table.len(), 2);
    assert_eq!(table[0].0, "/srv/store/aa/one.txt");
    assert_eq!(table[0].1, FileStat { size: 2048, mtime: 1700000100 });
    assert_eq!(table[1].0, "/srv/store/bb/two words.txt");
    assert_eq!(table[1].1, FileStat { size: 512, mtime: 1700000200 });

    let requested = vec![
        "/srv/store/bb/two words.txt".to_string(),
        "/srv/store/aa/one.txt".to_string(),
    ];
    let ordered = reorder_stats(&requested, &table).unwrap();
    assert_eq!(ordered[0].size, 512);
    assert_eq!(ordered[1].size, 2048);

    let missing = vec!["/srv/store/cc/absent".to_string()];
    assert!(matches!(
        reorder_stats(&missing, &table),
        Err(StoreError::StatCountMismatch { expected: 1, actual: 0 })
    ));
}

#[test]
fn listing_lines_become_store_paths() {
    let stdout = "/srv/store/aaaa/one.txt\n\
                  /srv/store/bbbb/two.png\n\
                  /elsewhere/cccc/three.txt\n\
                  /srv/store/too/many/segments\n";
    let paths = parse_file_listing(stdout, "/srv/store");
    assert_eq!(paths.len(), 2);
    assert_eq!(paths[0].folder, "aaaa");
    assert_eq!(paths[0].name, "one.txt");
    assert_eq!(paths[1].folder, "bbbb");
    assert_eq!(paths[1].name, "two.png");
}
