use asfa::errors::StoreError;
use asfa::file_listing::{FileListing, FileStat, LocalFile, RemotePath};
use asfa::hashing::get_hash;

fn catalog(names: &[(&str, &str)]) -> FileListing {
    let files = names
        .iter()
        .map(|(folder, name)| RemotePath::new(folder.to_string(), name.to_string()))
        .collect();
    FileListing::new(files)
}

fn three() -> FileListing {
    catalog(&[("aaaa", "a.txt"), ("bbbb", "b.png"), ("cccc", "c.png")])
}

#[test]
fn by_indices_selects_single_entries() {
    let listing = three().by_indices(&vec![1]).unwrap();
    assert_eq!(listing.indices, vec![1]);
    let listing = three().by_indices(&vec![-1]).unwrap();
    assert_eq!(listing.indices, vec![2]);
    let listing = three().by_indices(&vec![0]).unwrap();
    assert_eq!(listing.indices, vec![0]);
}

#[test]
fn by_indices_rejects_out_of_range() {
    assert!(matches!(
        three().by_indices(&vec![3]),
        Err(StoreError::InvalidIndex { index: 3 })
    ));
    assert!(matches!(
        three().by_indices(&vec![-4]),
        Err(StoreError::InvalidIndex { index: -4 })
    ));
    // a batch with one bad index selects nothing
    assert!(three().by_indices(&vec![0, 7]).is_err());
}

#[test]
fn repeated_selection_keeps_first_seen_order_without_duplicates() {
    let listing = three()
        .by_indices(&vec![2, 0])
        .unwrap()
        .by_indices(&vec![0, 1, 2])
        .unwrap()
        .with_all(true);
    assert_eq!(listing.indices, vec![2, 0, 1]);
}

#[test]
fn with_all_if_none_only_fills_an_empty_selection() {
    let listing = three().with_all_if_none(true);
    assert_eq!(listing.indices, vec![0, 1, 2]);
    let listing = three().by_indices(&vec![1]).unwrap().with_all_if_none(true);
    assert_eq!(listing.indices, vec![1]);
    let listing = three().with_all_if_none(false);
    assert_eq!(listing.indices, Vec::<usize>::new());
}

#[test]
fn first_and_last_truncate_in_current_order() {
    let all = || three().with_all(true);
    assert_eq!(all().first(Some(2)).indices, vec![0, 1]);
    assert_eq!(all().last(Some(2)).indices, vec![1, 2]);
    assert_eq!(all().first(None).indices, vec![0, 1, 2]);
    assert_eq!(all().first(Some(9)).indices, vec![0, 1, 2]);
    assert_eq!(all().revert(true).indices, vec![2, 1, 0]);
}

fn with_sizes(listing: FileListing, sizes: &[u64]) -> FileListing {
    let stats: Vec<FileStat> = listing
        .indices
        .iter()
        .map(|&i| FileStat { size: sizes[i], mtime: 1_700_000_000 + i as u64 })
        .collect();
    listing.provide_stats(&stats).unwrap()
}

#[test]
fn sort_revert_last_yields_single_smallest() {
    // sizes: index 0 -> 30, 1 -> 10, 2 -> 20
    let listing = with_sizes(three().with_all(true), &[30, 10, 20]);
    let sorted = listing.sort_by_size(true).unwrap();
    assert_eq!(sorted.indices, vec![1, 2, 0]);
    let descending = sorted.revert(true);
    assert_eq!(descending.indices, vec![0, 2, 1]);
    let smallest = descending.last(Some(1));
    assert_eq!(smallest.indices, vec![1]);
}

#[test]
fn sort_by_size_is_stable_for_equal_sizes() {
    let listing = with_sizes(three().by_indices(&vec![2, 0, 1]).unwrap(), &[7, 7, 7]);
    let sorted = listing.sort_by_size(true).unwrap();
    assert_eq!(sorted.indices, vec![2, 0, 1]);
}

#[test]
fn sort_by_time_orders_by_mtime() {
    let listing = three().with_all(true);
    let stats = vec![
        FileStat { size: 1, mtime: 300 },
        FileStat { size: 1, mtime: 100 },
        FileStat { size: 1, mtime: 200 },
    ];
    let listing = listing.provide_stats(&stats).unwrap();
    let sorted = listing.sort_by_time(true).unwrap();
    assert_eq!(sorted.indices, vec![1, 2, 0]);
}

#[test]
fn select_newer_window_includes_and_then_expires() {
    let now: u64 = 1_700_000_000;
    // entry 0 was just uploaded, entry 1 is an hour old
    let stats = vec![
        FileStat { size: 5, mtime: now },
        FileStat { size: 5, mtime: now - 3600 },
    ];
    let fresh = catalog(&[("aaaa", "new.txt"), ("bbbb", "old.txt")])
        .with_all(true)
        .provide_stats(&stats)
        .unwrap();
    let kept = fresh.select_newer(Some("1min"), now).unwrap();
    assert_eq!(kept.indices, vec![0]);

    // after waiting past the window the entry is excluded
    let later = now + 120;
    let fresh = catalog(&[("aaaa", "new.txt"), ("bbbb", "old.txt")])
        .with_all(true)
        .provide_stats(&stats)
        .unwrap();
    let kept = fresh.select_newer(Some("1min"), later).unwrap();
    assert_eq!(kept.indices, Vec::<usize>::new());
}

#[test]
fn select_older_keeps_the_other_side() {
    let now: u64 = 1_700_000_000;
    let stats = vec![
        FileStat { size: 5, mtime: now },
        FileStat { size: 5, mtime: now - 3600 },
    ];
    let listing = catalog(&[("aaaa", "new.txt"), ("bbbb", "old.txt")])
        .with_all(true)
        .provide_stats(&stats)
        .unwrap();
    let kept = listing.select_older(Some("30min"), now).unwrap();
    assert_eq!(kept.indices, vec![1]);
}

#[test]
fn bad_durations_are_rejected() {
    let now: u64 = 1_700_000_000;
    let listing = three().with_all(true).provide_stats(&vec![
        FileStat { size: 1, mtime: now },
        FileStat { size: 1, mtime: now },
        FileStat { size: 1, mtime: now },
    ])
    .unwrap();
    assert!(matches!(
        listing.select_newer(Some("not a duration"), now),
        Err(StoreError::InvalidDuration { .. })
    ));
    // a window reaching before the epoch underflows
    let listing = three().with_all(true).provide_stats(&vec![
        FileStat { size: 1, mtime: 5 },
        FileStat { size: 1, mtime: 5 },
        FileStat { size: 1, mtime: 5 },
    ])
    .unwrap();
    assert!(matches!(
        listing.select_newer(Some("1h"), 10),
        Err(StoreError::InvalidDuration { .. })
    ));
}

#[test]
fn provide_stats_demands_one_stat_per_selected_entry() {
    let listing = three().with_all(true);
    let too_few = vec![FileStat { size: 1, mtime: 1 }];
    assert!(matches!(
        listing.provide_stats(&too_few),
        Err(StoreError::StatCountMismatch { expected: 3, actual: 1 })
    ));
}

#[test]
fn filter_sort_first_picks_smaller_png() {
    // catalog [a.txt, b.png, c.png] with indices 0, 1, 2
    let listing = three().by_filter(Some("\\.png$")).unwrap();
    assert_eq!(listing.indices, vec![1, 2]);
    // b.png is larger than c.png
    let listing = with_sizes(listing, &[0, 200, 100]);
    let sorted = listing.sort_by_size(true).unwrap();
    assert_eq!(sorted.indices, vec![2, 1]);
    let first = sorted.first(Some(1));
    assert_eq!(first.indices, vec![2]);
    assert_eq!(first.path_at(first.indices[0]).name, "c.png");
}

#[test]
fn invalid_filter_is_rejected() {
    assert!(matches!(
        three().by_filter(Some("(unclosed")),
        Err(StoreError::InvalidFilter { .. })
    ));
    let unchanged = three().by_filter(None).unwrap();
    assert_eq!(unchanged.indices, Vec::<usize>::new());
}

#[test]
fn by_hash_selects_the_entry_stored_under_the_content_hash() {
    let token = get_hash(&b"abc".to_vec(), 8).unwrap();
    let listing = catalog(&[("zzzz", "other.bin"), (token.as_str(), "abc.txt")]);
    let files = vec![LocalFile { name: "abc.local".to_string(), content: b"abc".to_vec() }];
    let selected = listing.by_hash(&files, 8, true).unwrap();
    assert_eq!(selected.indices, vec![1]);
}

#[test]
fn by_hash_missing_bails_or_skips() {
    let files = vec![LocalFile { name: "nope.bin".to_string(), content: b"nope".to_vec() }];
    match three().by_hash(&files, 8, true) {
        Err(StoreError::NoMatchingRemoteFile { file }) => assert_eq!(file, "nope.bin"),
        other => panic!("unexpected: {:?}", other.is_ok()),
    }
    let skipped = three().by_hash(&files, 8, false).unwrap();
    assert_eq!(skipped.indices, Vec::<usize>::new());
    // an empty batch never checks the length
    assert!(three().by_hash(&Vec::new(), 0, true).is_ok());
    // a non-empty batch does
    assert!(matches!(
        three().by_hash(&files, 0, true),
        Err(StoreError::InvalidHashLength { length: 0 })
    ));
}

#[test]
fn iteration_is_restartable_and_does_not_mutate() {
    let now: u64 = 42;
    let listing = three().by_indices(&vec![2, 0]).unwrap();
    let stats = vec![
        FileStat { size: 9, mtime: now },
        FileStat { size: 3, mtime: now },
    ];
    let listing = listing.provide_stats(&stats).unwrap();
    let mut iter = listing.iter();
    let (idx, path, stat) = iter.next().unwrap();
    assert_eq!(idx, 2);
    assert_eq!(path.name, "c.png");
    assert_eq!(stat, Some(FileStat { size: 9, mtime: now }));
    let (idx, path, _) = iter.next().unwrap();
    assert_eq!(idx, 0);
    assert_eq!(path.name, "a.txt");
    assert!(iter.next().is_none());
    // a fresh iterator starts over
    let mut again = listing.iter();
    assert_eq!(again.next().unwrap().0, 2);
    assert_eq!(listing.count(), 2);
}
