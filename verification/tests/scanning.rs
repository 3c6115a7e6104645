use dir_scanner::events::{notices, Notices};
use dir_scanner::scanner::{
    create_directory_scanner, get_directory_map, scan_directory_async, stop_scanning,
    DirectoryScanner, ScanError, ScanState,
};
use dir_scanner::shared::{QueryError, DEPTH_CHILDREN, DEPTH_FULL};
use dir_scanner::tree::{NodeStatus, TreeNode};
use dir_scanner::walker::{
    DirEntryInfo, FailureKind, ScanFailure, WalkAction, WalkEvent, WalkOutcome,
};

/// What a path holds on the disk that the tests pretend to scan.
enum Item {
    Dir(Vec<&'static str>),
    File(u64),
    LockedDir,
    LockedFile,
}

/// A disk: paths and what they hold.
struct Disk {
    items: Vec<(&'static str, Item)>,
}

impl Disk {
    fn find(&self, path: &str) -> Option<&Item> {
        self.items.iter().find(|(p, _)| *p == path).map(|(_, item)| item)
    }

    fn is_dir(&self, path: &str) -> bool {
        matches!(self.find(path), Some(Item::Dir(_)) | Some(Item::LockedDir))
    }

    /// Performs the operation that the scanner asked for.
    fn perform(&self, action: &WalkAction) -> WalkEvent {
        match action {
            WalkAction::ListDirectory(path) => match self.find(path) {
                Some(Item::Dir(names)) => WalkEvent::Listed(
                    names
                        .iter()
                        .map(|name| {
                            let full = format!("{}/{}", path, name);
                            let is_dir = self.is_dir(&full);
                            DirEntryInfo { path: full, is_dir }
                        })
                        .collect(),
                ),
                _ => WalkEvent::ListingFailed,
            },
            WalkAction::ReadFileLength(path) => match self.find(path) {
                Some(Item::File(len)) => WalkEvent::FileLength(*len),
                _ => WalkEvent::MetadataUnavailable,
            },
            WalkAction::Finished(_) => panic!("a finished walk asks for nothing"),
        }
    }
}

/// Runs a whole scan of `root` and returns how it ended.
fn scan(scanner: &mut DirectoryScanner, disk: &Disk, root: &str) -> WalkOutcome {
    let mut action = scanner.start(root, true).expect("the scan starts");
    loop {
        if let WalkAction::Finished(outcome) = action {
            return outcome;
        }
        let event = disk.perform(&action);
        action = scanner.advance(event).expect("a scan is running");
    }
}

fn fixed_tree() -> Disk {
    Disk {
        items: vec![
            ("root", Item::Dir(vec!["file1", "subfolder1"])),
            ("root/file1", Item::File(13)),
            ("root/subfolder1", Item::Dir(vec!["file2"])),
            ("root/subfolder1/file2", Item::File(12)),
        ],
    }
}

fn nested_tree() -> Disk {
    Disk {
        items: vec![
            ("top", Item::Dir(vec!["a", "b", "readme"])),
            ("top/readme", Item::File(7)),
            ("top/a", Item::Dir(vec!["a1", "a2", "x"])),
            ("top/a/x", Item::File(100)),
            ("top/a/a1", Item::Dir(vec!["y"])),
            ("top/a/a1/y", Item::File(20)),
            ("top/a/a2", Item::Dir(vec![])),
            ("top/b", Item::Dir(vec!["b1"])),
            ("top/b/b1", Item::Dir(vec!["z", "w"])),
            ("top/b/b1/z", Item::File(3)),
            ("top/b/b1/w", Item::File(4)),
        ],
    }
}

fn complex_tree() -> Disk {
    Disk {
        items: vec![
            ("complex_test_dir", Item::Dir(vec!["subdir_0", "subdir_1"])),
            (
                "complex_test_dir/subdir_0",
                Item::Dir(vec!["file_0.txt", "file_1.txt", "file_2.txt", "file_3.txt", "file_4.txt"]),
            ),
            (
                "complex_test_dir/subdir_1",
                Item::Dir(vec!["file_0.txt", "file_1.txt", "file_2.txt", "file_3.txt", "file_4.txt"]),
            ),
            ("complex_test_dir/subdir_0/file_0.txt", Item::File(21)),
            ("complex_test_dir/subdir_0/file_1.txt", Item::File(21)),
            ("complex_test_dir/subdir_0/file_2.txt", Item::File(21)),
            ("complex_test_dir/subdir_0/file_3.txt", Item::File(21)),
            ("complex_test_dir/subdir_0/file_4.txt", Item::File(21)),
            ("complex_test_dir/subdir_1/file_0.txt", Item::File(21)),
            ("complex_test_dir/subdir_1/file_1.txt", Item::File(21)),
            ("complex_test_dir/subdir_1/file_2.txt", Item::File(21)),
            ("complex_test_dir/subdir_1/file_3.txt", Item::File(21)),
            ("complex_test_dir/subdir_1/file_4.txt", Item::File(21)),
        ],
    }
}

#[test]
fn test_asynchronous_scanning() {
    let disk = Disk { items: vec![("test_dir", Item::Dir(vec![]))] };
    let mut scanner = DirectoryScanner::new();
    let outcome = scan(&mut scanner, &disk, "test_dir");
    assert_eq!(outcome, WalkOutcome::Completed, "Scan should complete successfully.");
}

#[test]
fn test_get_directory_map() {
    let disk = Disk { items: vec![("test_dir", Item::Dir(vec![]))] };
    let mut scanner = DirectoryScanner::new();
    let _ = scan(&mut scanner, &disk, "test_dir");
    let directory_map = scanner.query("test_dir", DEPTH_FULL).unwrap();
    assert_eq!(directory_map.children.len(), 0, "Directory map should initially be empty.");
}

#[test]
fn test_complex_folder_scanning() {
    let disk = complex_tree();
    let mut scanner = create_directory_scanner();
    let mut action = scan_directory_async(&mut scanner, "complex_test_dir", true).unwrap();
    let mut seen_children_during_scan = false;
    loop {
        if let WalkAction::Finished(_) = action {
            break;
        }
        // While scanning, the directory map can be retrieved.
        let directory_map =
            get_directory_map(&scanner, "complex_test_dir", DEPTH_CHILDREN).unwrap();
        if scanner.state() == ScanState::Scanning && !directory_map.children.is_empty() {
            seen_children_during_scan = true;
        }
        let event = disk.perform(&action);
        action = scanner.advance(event).unwrap();
    }
    assert!(seen_children_during_scan, "Directory map should not be empty during scanning.");
    let directory_map = get_directory_map(&scanner, "complex_test_dir", DEPTH_FULL).unwrap();
    assert!(
        !directory_map.children.is_empty(),
        "Directory map should not be empty after scanning."
    );
    assert_eq!(directory_map.children.len(), 2);
    assert_eq!(directory_map.cumulative_size, 210);
    assert_eq!(directory_map.children[0].cumulative_size, 105);
    assert_eq!(directory_map.children[1].name, "subdir_1");
}

#[test]
fn new_scanner_is_idle_with_an_empty_root() {
    let scanner = create_directory_scanner();
    assert_eq!(scanner.state(), ScanState::Idle);
    assert!(!scanner.is_stop_requested());
    assert_eq!(scanner.last_outcome(), None);
    assert!(scanner.failures().is_empty());
    let root = scanner.query("", DEPTH_FULL).unwrap();
    assert_eq!(
        root,
        TreeNode {
            cumulative_size: 0,
            file_bytes: 0,
            name: String::new(),
            path: String::new(),
            children: vec![],
            status: NodeStatus::Pending,
        }
    );
}

#[test]
fn single_file_gives_its_size_and_no_children() {
    let disk = Disk {
        items: vec![("dir", Item::Dir(vec!["only"])), ("dir/only", Item::File(4096))],
    };
    let mut scanner = DirectoryScanner::new();
    assert_eq!(scan(&mut scanner, &disk, "dir"), WalkOutcome::Completed);
    let root = scanner.query("dir", DEPTH_FULL).unwrap();
    assert_eq!(root.cumulative_size, 4096);
    assert_eq!(root.file_bytes, 4096);
    assert!(root.children.is_empty());
    assert_eq!(root.status, NodeStatus::Complete);
    assert_eq!(root.name, "dir");
    assert_eq!(root.path, "dir");
}

#[test]
fn fixed_tree_gives_25_bytes_and_one_child_of_12() {
    let disk = fixed_tree();
    let mut scanner = DirectoryScanner::new();
    assert_eq!(scan(&mut scanner, &disk, "root"), WalkOutcome::Completed);
    let root = scanner.query("root", DEPTH_FULL).unwrap();
    assert_eq!(
        root,
        TreeNode {
            cumulative_size: 25,
            file_bytes: 13,
            name: "root".to_string(),
            path: "root".to_string(),
            children: vec![TreeNode {
                cumulative_size: 12,
                file_bytes: 12,
                name: "subfolder1".to_string(),
                path: "root/subfolder1".to_string(),
                children: vec![],
                status: NodeStatus::Complete,
            }],
            status: NodeStatus::Complete,
        }
    );
    assert!(scanner.failures().is_empty());
    assert_eq!(scanner.last_outcome(), Some(WalkOutcome::Completed));
    assert_eq!(scanner.state(), ScanState::Idle);
}

#[test]
fn scan_asks_for_one_operation_per_entry_in_listing_order() {
    let disk = fixed_tree();
    let mut scanner = DirectoryScanner::new();
    let mut asked = Vec::new();
    let mut action = scanner.start("root", true).unwrap();
    loop {
        asked.push(action.clone());
        if let WalkAction::Finished(_) = action {
            break;
        }
        action = scanner.advance(disk.perform(&action)).unwrap();
    }
    assert_eq!(
        asked,
        vec![
            WalkAction::ListDirectory("root".to_string()),
            WalkAction::ReadFileLength("root/file1".to_string()),
            WalkAction::ListDirectory("root/subfolder1".to_string()),
            WalkAction::ReadFileLength("root/subfolder1/file2".to_string()),
            WalkAction::Finished(WalkOutcome::Completed),
        ]
    );
}

#[test]
fn depth_zero_hides_grandchildren_and_keeps_sizes() {
    let disk = nested_tree();
    let mut scanner = DirectoryScanner::new();
    assert_eq!(scan(&mut scanner, &disk, "top"), WalkOutcome::Completed);
    let full = scanner.query("top", DEPTH_FULL).unwrap();
    let flat = scanner.query("top", DEPTH_CHILDREN).unwrap();
    assert_eq!(full.cumulative_size, 134);
    assert_eq!(flat.cumulative_size, 134);
    assert_eq!(flat.children.len(), 2);
    assert!(!flat.children.is_empty());
    for (shown, whole) in flat.children.iter().zip(full.children.iter()) {
        assert!(shown.children.is_empty());
        assert!(!whole.children.is_empty());
        assert_eq!(shown.cumulative_size, whole.cumulative_size);
        assert_eq!(shown.name, whole.name);
        assert_eq!(shown.path, whole.path);
    }
    assert_eq!(flat.children[0].name, "a");
    assert_eq!(flat.children[0].cumulative_size, 120);
    assert_eq!(flat.children[1].name, "b");
    assert_eq!(flat.children[1].cumulative_size, 7);
    assert_eq!(full.children[0].children.len(), 2);
    assert_eq!(full.children[0].children[0].cumulative_size, 20);
    assert_eq!(full.children[0].children[1].cumulative_size, 0);
    assert_eq!(full.children[1].children[0].path, "top/b/b1");
}

#[test]
fn size_equation_holds_after_every_step() {
    let disk = nested_tree();
    let mut scanner = DirectoryScanner::new();
    let mut action = scanner.start("top", true).unwrap();
    let mut steps = 0;
    loop {
        let seen = scanner.query("top", DEPTH_FULL).unwrap();
        assert!(seen.is_consistent());
        let sum: u64 = seen.children.iter().map(|c| c.cumulative_size).sum();
        assert_eq!(seen.cumulative_size, sum + seen.file_bytes);
        let flat = scanner.query("top", DEPTH_CHILDREN).unwrap();
        let flat_sum: u64 = flat.children.iter().map(|c| c.cumulative_size).sum();
        assert_eq!(flat.cumulative_size, flat_sum + flat.file_bytes);
        if let WalkAction::Finished(_) = action {
            break;
        }
        action = scanner.advance(disk.perform(&action)).unwrap();
        steps += 1;
    }
    assert_eq!(steps, 11);
    assert_eq!(scanner.query("top", DEPTH_FULL).unwrap().status, NodeStatus::Complete);
}

#[test]
fn published_root_is_empty_right_after_start() {
    let mut scanner = DirectoryScanner::new();
    let first = scanner.start("some/dir/", true).unwrap();
    assert_eq!(first, WalkAction::ListDirectory("some/dir/".to_string()));
    assert_eq!(scanner.state(), ScanState::Scanning);
    assert_eq!(scanner.last_outcome(), None);
    let root = scanner.query("some/dir/", DEPTH_FULL).unwrap();
    assert_eq!(
        root,
        TreeNode {
            cumulative_size: 0,
            file_bytes: 0,
            name: "dir".to_string(),
            path: "some/dir/".to_string(),
            children: vec![],
            status: NodeStatus::Pending,
        }
    );
}

#[test]
fn start_while_scanning_is_refused() {
    let mut scanner = DirectoryScanner::new();
    scanner.start("root", true).unwrap();
    assert_eq!(scanner.start("other", true), Err(ScanError::AlreadyScanning));
    assert_eq!(scanner.start("", true), Err(ScanError::AlreadyScanning));
    assert_eq!(scanner.state(), ScanState::Scanning);
    assert!(scanner.query("root", DEPTH_FULL).is_ok());
    scanner.request_stop();
    assert_eq!(scan_directory_async(&mut scanner, "other", true), Err(ScanError::AlreadyScanning));
    assert_eq!(scanner.state(), ScanState::Cancelling);
}

#[test]
fn start_on_a_root_that_cannot_be_listed_is_refused() {
    let mut scanner = DirectoryScanner::new();
    assert_eq!(scanner.start("missing", false), Err(ScanError::InvalidRootPath));
    assert_eq!(scan_directory_async(&mut scanner, "missing", false), Err(ScanError::InvalidRootPath));
    assert_eq!(scanner.start("", false), Err(ScanError::InvalidRootPath));
    // Nothing was started and nothing was published.
    assert_eq!(scanner.state(), ScanState::Idle);
    assert_eq!(scanner.last_outcome(), None);
    assert_eq!(scanner.query("missing", DEPTH_FULL), Err(QueryError::NotFound));
    assert_eq!(scanner.advance(WalkEvent::Listed(vec![])), None);
    // A running scan is the first reason to refuse.
    scanner.start("root", true).unwrap();
    assert_eq!(scanner.start("missing", false), Err(ScanError::AlreadyScanning));
}

#[test]
fn notices_follow_the_step() {
    let list = WalkAction::ListDirectory("d".to_string());
    let read = WalkAction::ReadFileLength("f".to_string());
    assert_eq!(notices(0, 0, &list), Notices { start: true, error: false, complete: false });
    assert_eq!(notices(2, 3, &list), Notices { start: true, error: true, complete: false });
    assert_eq!(notices(1, 1, &read), Notices { start: false, error: false, complete: false });
    assert_eq!(notices(1, 4, &read), Notices { start: false, error: true, complete: false });
    assert_eq!(
        notices(5, 5, &WalkAction::Finished(WalkOutcome::Completed)),
        Notices { start: false, error: false, complete: true }
    );
    assert_eq!(
        notices(5, 6, &WalkAction::Finished(WalkOutcome::Cancelled)),
        Notices { start: false, error: true, complete: true }
    );
    assert_eq!(
        notices(0, 0, &WalkAction::Finished(WalkOutcome::Cancelled)),
        Notices { start: false, error: false, complete: true }
    );
    assert_eq!(
        notices(0, 0, &WalkAction::Finished(WalkOutcome::InvalidRootPath)),
        Notices { start: false, error: true, complete: true }
    );
}

#[test]
fn start_with_an_empty_path_is_refused() {
    let mut scanner = DirectoryScanner::new();
    assert_eq!(scanner.start("", true), Err(ScanError::InvalidRootPath));
    assert_eq!(scanner.state(), ScanState::Idle);
    assert!(scanner.query("", DEPTH_FULL).is_ok());
}

#[test]
fn root_that_cannot_be_listed_ends_the_scan() {
    let disk = Disk { items: vec![] };
    let mut scanner = DirectoryScanner::new();
    assert_eq!(scan(&mut scanner, &disk, "missing"), WalkOutcome::InvalidRootPath);
    assert_eq!(scanner.state(), ScanState::Idle);
    assert_eq!(scanner.last_outcome(), Some(WalkOutcome::InvalidRootPath));
    let root = scanner.query("missing", DEPTH_FULL).unwrap();
    assert_eq!(root.status, NodeStatus::Errored);
    assert_eq!(root.cumulative_size, 0);
    assert!(root.children.is_empty());
}

#[test]
fn directory_that_cannot_be_listed_counts_as_empty_and_siblings_go_on() {
    let disk = Disk {
        items: vec![
            ("r", Item::Dir(vec!["locked", "open"])),
            ("r/locked", Item::LockedDir),
            ("r/open", Item::Dir(vec!["f"])),
            ("r/open/f", Item::File(5)),
        ],
    };
    let mut scanner = DirectoryScanner::new();
    assert_eq!(scan(&mut scanner, &disk, "r"), WalkOutcome::Completed);
    let root = scanner.query("r", DEPTH_FULL).unwrap();
    assert_eq!(root.cumulative_size, 5);
    assert_eq!(root.children.len(), 2);
    assert_eq!(root.children[0].name, "locked");
    assert_eq!(root.children[0].status, NodeStatus::Errored);
    assert_eq!(root.children[0].cumulative_size, 0);
    assert!(root.children[0].children.is_empty());
    assert_eq!(root.children[1].status, NodeStatus::Complete);
    assert_eq!(root.children[1].cumulative_size, 5);
    assert_eq!(
        scanner.failures(),
        &vec![ScanFailure { path: "r/locked".to_string(), kind: FailureKind::ListingFailed }]
    );
}

#[test]
fn file_without_metadata_is_skipped_and_recorded() {
    let disk = Disk {
        items: vec![
            ("r", Item::Dir(vec!["gone", "kept", "sub"])),
            ("r/gone", Item::LockedFile),
            ("r/kept", Item::File(9)),
            ("r/sub", Item::Dir(vec!["also_gone", "small"])),
            ("r/sub/also_gone", Item::LockedFile),
            ("r/sub/small", Item::File(1)),
        ],
    };
    let mut scanner = DirectoryScanner::new();
    assert_eq!(scan(&mut scanner, &disk, "r"), WalkOutcome::Completed);
    let root = scanner.query("r", DEPTH_FULL).unwrap();
    assert_eq!(root.cumulative_size, 10);
    assert_eq!(root.file_bytes, 9);
    assert_eq!(root.children[0].cumulative_size, 1);
    assert_eq!(
        scanner.failures(),
        &vec![
            ScanFailure { path: "r/gone".to_string(), kind: FailureKind::MetadataUnavailable },
            ScanFailure {
                path: "r/sub/also_gone".to_string(),
                kind: FailureKind::MetadataUnavailable
            },
        ]
    );
}

#[test]
fn sizes_beyond_64_bits_are_left_out_and_recorded() {
    let disk = Disk {
        items: vec![
            ("r", Item::Dir(vec!["huge", "one", "sub", "deep"])),
            ("r/huge", Item::File(u64::MAX - 1)),
            ("r/one", Item::File(1)),
            ("r/sub", Item::Dir(vec!["two"])),
            ("r/sub/two", Item::File(2)),
            ("r/deep", Item::Dir(vec!["max", "more"])),
            ("r/deep/max", Item::File(u64::MAX)),
            ("r/deep/more", Item::File(1)),
        ],
    };
    let mut scanner = DirectoryScanner::new();
    assert_eq!(scan(&mut scanner, &disk, "r"), WalkOutcome::Completed);
    let root = scanner.query("r", DEPTH_FULL).unwrap();
    assert_eq!(root.cumulative_size, u64::MAX);
    assert_eq!(root.file_bytes, u64::MAX);
    assert!(root.children.is_empty());
    assert!(root.is_consistent());
    assert_eq!(
        scanner.failures(),
        &vec![
            ScanFailure { path: "r/sub".to_string(), kind: FailureKind::SizeOverflow },
            ScanFailure { path: "r/deep/more".to_string(), kind: FailureKind::SizeOverflow },
            ScanFailure { path: "r/deep".to_string(), kind: FailureKind::SizeOverflow },
        ]
    );
}

#[test]
fn stop_ends_the_scan_and_the_tree_stays_as_it_is() {
    let disk = nested_tree();
    let mut scanner = DirectoryScanner::new();
    let mut action = scanner.start("top", true).unwrap();
    // top, top/a, top/a/a1 are listed; top/a/a1/y is being measured.
    for _ in 0..3 {
        action = scanner.advance(disk.perform(&action)).unwrap();
    }
    assert_eq!(action, WalkAction::ReadFileLength("top/a/a1/y".to_string()));
    stop_scanning(&mut scanner);
    assert!(scanner.is_stop_requested());
    assert_eq!(scanner.state(), ScanState::Cancelling);
    // Asking again changes nothing.
    scanner.request_stop();
    assert_eq!(scanner.state(), ScanState::Cancelling);

    let last = scanner.advance(disk.perform(&action)).unwrap();
    assert_eq!(last, WalkAction::Finished(WalkOutcome::Cancelled));
    assert_eq!(scanner.state(), ScanState::Idle);
    assert_eq!(scanner.last_outcome(), Some(WalkOutcome::Cancelled));

    let stopped = scanner.query("top", DEPTH_FULL).unwrap();
    assert_eq!(stopped.status, NodeStatus::Cancelled);
    assert_eq!(stopped.cumulative_size, 20);
    assert_eq!(stopped.children.len(), 1);
    assert_eq!(stopped.children[0].path, "top/a");
    assert_eq!(stopped.children[0].status, NodeStatus::Cancelled);
    assert_eq!(stopped.children[0].children[0].path, "top/a/a1");
    assert_eq!(stopped.children[0].children[0].status, NodeStatus::Cancelled);
    assert_eq!(stopped.children[0].children[0].cumulative_size, 20);
    assert!(stopped.is_consistent());

    // Later events are ignored: nothing is asked for, nothing changes.
    assert_eq!(scanner.advance(WalkEvent::FileLength(1000)), None);
    assert_eq!(
        scanner.advance(WalkEvent::Listed(vec![DirEntryInfo {
            path: "top/late".to_string(),
            is_dir: true
        }])),
        None
    );
    assert_eq!(scanner.query("top", DEPTH_FULL).unwrap(), stopped);
    assert_eq!(scanner.state(), ScanState::Idle);
}

#[test]
fn stop_before_the_first_listing_gives_an_empty_cancelled_root() {
    let disk = fixed_tree();
    let mut scanner = DirectoryScanner::new();
    let action = scanner.start("root", true).unwrap();
    scanner.request_stop();
    let last = scanner.advance(disk.perform(&action)).unwrap();
    assert_eq!(last, WalkAction::Finished(WalkOutcome::Cancelled));
    let root = scanner.query("root", DEPTH_FULL).unwrap();
    assert_eq!(root.status, NodeStatus::Cancelled);
    assert_eq!(root.cumulative_size, 0);
    assert!(root.children.is_empty());
}

#[test]
fn stop_at_rest_starts_no_cancellation() {
    let mut scanner = DirectoryScanner::new();
    scanner.request_stop();
    assert!(scanner.is_stop_requested());
    assert_eq!(scanner.state(), ScanState::Idle);
    // The next scan starts with the flag down.
    let disk = fixed_tree();
    assert_eq!(scan(&mut scanner, &disk, "root"), WalkOutcome::Completed);
    assert!(!scanner.is_stop_requested());
}

#[test]
fn new_scan_replaces_the_tree_of_the_last_one() {
    let mut scanner = DirectoryScanner::new();
    assert_eq!(scan(&mut scanner, &fixed_tree(), "root"), WalkOutcome::Completed);
    assert_eq!(scan(&mut scanner, &nested_tree(), "top"), WalkOutcome::Completed);
    assert_eq!(scanner.query("root", DEPTH_FULL), Err(QueryError::NotFound));
    assert_eq!(scanner.query("top", DEPTH_FULL).unwrap().cumulative_size, 134);
}

#[test]
fn query_for_another_path_is_not_found() {
    let mut scanner = DirectoryScanner::new();
    assert_eq!(scan(&mut scanner, &fixed_tree(), "root"), WalkOutcome::Completed);
    assert_eq!(scanner.query("root/subfolder1", DEPTH_FULL), Err(QueryError::NotFound));
    assert_eq!(scanner.query("roo", DEPTH_CHILDREN), Err(QueryError::NotFound));
    assert_eq!(scanner.query("", DEPTH_FULL), Err(QueryError::NotFound));
    assert_eq!(scanner.query("ROOT", DEPTH_FULL), Err(QueryError::NotFound));
    // The path is looked at before the depth.
    assert_eq!(get_directory_map(&scanner, "elsewhere", 7), Err(QueryError::NotFound));
}

#[test]
fn query_with_another_depth_is_an_invalid_argument() {
    let mut scanner = DirectoryScanner::new();
    assert_eq!(scan(&mut scanner, &fixed_tree(), "root"), WalkOutcome::Completed);
    assert_eq!(scanner.query("root", 2), Err(QueryError::InvalidDepth));
    assert_eq!(scanner.query("root", -1), Err(QueryError::InvalidDepth));
    assert_eq!(scanner.query("root", i32::MAX), Err(QueryError::InvalidDepth));
    assert!(scanner.query("root", 0).is_ok());
    assert!(scanner.query("root", 1).is_ok());
}

#[test]
fn query_matches_paths_whatever_their_separators() {
    let disk = Disk {
        items: vec![("C:\\data\\logs", Item::Dir(vec![]))],
    };
    let mut scanner = DirectoryScanner::new();
    assert_eq!(scan(&mut scanner, &disk, "C:\\data\\logs"), WalkOutcome::Completed);
    let by_slash = scanner.query("C:/data/logs", DEPTH_FULL).unwrap();
    assert_eq!(by_slash.path, "C:\\data\\logs");
    assert_eq!(by_slash.name, "logs");
    assert!(scanner.query("C:\\data/logs", DEPTH_CHILDREN).is_ok());
    assert_eq!(scanner.query("C:/data/logs/", DEPTH_FULL), Err(QueryError::NotFound));
}

#[test]
fn event_that_was_not_asked_for_is_ignored() {
    let disk = fixed_tree();
    let mut scanner = DirectoryScanner::new();
    let action = scanner.start("root", true).unwrap();
    // A length arrives where a listing was asked for.
    assert_eq!(
        scanner.advance(WalkEvent::FileLength(77)),
        Some(WalkAction::ListDirectory("root".to_string()))
    );
    assert_eq!(
        scanner.advance(WalkEvent::MetadataUnavailable),
        Some(WalkAction::ListDirectory("root".to_string()))
    );
    let action = scanner.advance(disk.perform(&action)).unwrap();
    assert_eq!(action, WalkAction::ReadFileLength("root/file1".to_string()));
    // A listing arrives where a length was asked for.
    assert_eq!(
        scanner.advance(WalkEvent::Listed(vec![])),
        Some(WalkAction::ReadFileLength("root/file1".to_string()))
    );
    assert_eq!(
        scanner.advance(WalkEvent::ListingFailed),
        Some(WalkAction::ReadFileLength("root/file1".to_string()))
    );
    assert_eq!(scanner.query("root", DEPTH_FULL).unwrap().cumulative_size, 0);
    assert!(scanner.failures().is_empty());
    // The walk goes on as if nothing had happened.
    let mut action = action;
    loop {
        if let WalkAction::Finished(outcome) = action {
            assert_eq!(outcome, WalkOutcome::Completed);
            break;
        }
        action = scanner.advance(disk.perform(&action)).unwrap();
    }
    assert_eq!(scanner.query("root", DEPTH_FULL).unwrap().cumulative_size, 25);
}

#[test]
fn listeners_are_notified_of_start_failure_and_end() {
    let disk = Disk {
        items: vec![("r", Item::Dir(vec!["gone"])), ("r/gone", Item::LockedFile)],
    };
    let mut scanner = DirectoryScanner::new();
    let started = scanner.events.start.listen();
    let ended = scanner.events.complete.listen();
    let failed = scanner.events.error.listen();
    let idle = scanner.events.complete.listen();
    assert!(!idle.discard());
    let mut action = scanner.start("r", true).unwrap();
    assert!(started.discard());
    let early = scanner.events.complete.listen();
    action = scanner.advance(disk.perform(&action)).unwrap();
    assert!(!early.discard());
    action = scanner.advance(disk.perform(&action)).unwrap();
    assert_eq!(action, WalkAction::Finished(WalkOutcome::Completed));
    assert!(failed.discard());
    assert!(ended.discard());
}
