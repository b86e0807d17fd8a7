use file_deduplication::dedup::{analyze_duplicates, DedupAnalysis};
use file_deduplication::scanner::{
    calculate_hash, root_warning, ContentHasher, ScanConfig, Scanner, CHUNK_SIZE,
};
use file_deduplication::{DedupResult, FileInfo, GroupError};

fn record(path: &str, size: u64, hash: &str) -> FileInfo {
    FileInfo { path: path.to_string(), size, hash: hash.to_string(), modified: 0 }
}

fn paths(group: &Vec<FileInfo>) -> Vec<String> {
    group.iter().map(|f| f.path.clone()).collect()
}

#[test]
fn test_new_result_is_empty() {
    let result = DedupResult::new();
    assert!(result.groups().is_empty());
    assert_eq!(result.total_files(), 0);
    assert_eq!(result.total_size(), 0);
    assert_eq!(result.get_duplicate_count(), 0);
    assert_eq!(result.get_wasted_space(), 0);
}

#[test]
fn test_add_file_groups_by_hash_in_arrival_order() {
    let mut result = DedupResult::new();
    assert_eq!(result.add_file(record("a", 100, "h1")), Ok(()));
    assert_eq!(result.add_file(record("d", 50, "h2")), Ok(()));
    assert_eq!(result.add_file(record("b", 100, "h1")), Ok(()));
    assert_eq!(result.add_file(record("c", 100, "h1")), Ok(()));
    assert_eq!(result.total_files(), 4);
    assert_eq!(result.total_size(), 350);
    assert_eq!(result.groups().len(), 2);
    assert_eq!(paths(&result.groups()[0]), vec!["a", "b", "c"]);
    assert_eq!(paths(&result.groups()[1]), vec!["d"]);
    assert_eq!(result.get_duplicate_count(), 2);
    assert_eq!(result.get_wasted_space(), 200);
}

#[test]
fn test_filter_duplicates_drops_singletons() {
    let mut result = DedupResult::new();
    result.add_file(record("x", 1, "h0")).unwrap();
    result.add_file(record("a", 100, "h1")).unwrap();
    result.add_file(record("d", 50, "h2")).unwrap();
    result.add_file(record("b", 100, "h1")).unwrap();
    result.add_file(record("e", 7, "h3")).unwrap();
    result.add_file(record("f", 7, "h3")).unwrap();
    result.filter_duplicates();
    assert_eq!(result.groups().len(), 2);
    assert_eq!(paths(&result.groups()[0]), vec!["a", "b"]);
    assert_eq!(paths(&result.groups()[1]), vec!["e", "f"]);
    for group in result.groups() {
        assert!(group.len() >= 2);
    }
    assert_eq!(result.total_files(), 6);
    assert_eq!(result.total_size(), 265);
    assert_eq!(result.get_duplicate_count(), 2);
    assert_eq!(result.get_wasted_space(), 107);
}

#[test]
fn test_add_file_refuses_size_mismatch() {
    let mut result = DedupResult::new();
    result.add_file(record("a", 100, "h1")).unwrap();
    assert_eq!(result.add_file(record("b", 101, "h1")), Err(GroupError::SizeMismatch));
    assert_eq!(result.total_files(), 1);
    assert_eq!(result.total_size(), 100);
    assert_eq!(paths(&result.groups()[0]), vec!["a"]);
    assert_eq!(result.add_file(record("c", 100, "h1")), Ok(()));
    for group in result.groups() {
        for member in group {
            assert_eq!(member.size, group[0].size);
            assert_eq!(member.hash, group[0].hash);
        }
    }
}

#[test]
fn test_add_file_refuses_overflow_of_bytes() {
    let mut result = DedupResult::new();
    result.add_file(record("a", u64::MAX, "h1")).unwrap();
    assert_eq!(result.add_file(record("b", 1, "h2")), Err(GroupError::TotalsOverflow));
    assert_eq!(result.groups().len(), 1);
    assert_eq!(result.total_size(), u64::MAX);
    assert_eq!(result.add_file(record("c", 0, "h3")), Ok(()));
    assert_eq!(result.total_files(), 2);
}

#[test]
fn test_size_mismatch_comes_before_overflow() {
    let mut result = DedupResult::new();
    result.add_file(record("a", u64::MAX, "h1")).unwrap();
    assert_eq!(result.add_file(record("b", 5, "h1")), Err(GroupError::SizeMismatch));
}

#[test]
fn test_wasted_space_is_keeper_size_times_copies() {
    let mut result = DedupResult::new();
    for name in ["a", "b", "c", "d", "e"] {
        result.add_file(record(name, 12, "h")).unwrap();
    }
    for name in ["p", "q"] {
        result.add_file(record(name, 1000, "g")).unwrap();
    }
    assert_eq!(result.get_wasted_space(), 12 * 4 + 1000);
    assert_eq!(result.get_duplicate_count(), 5);
}

#[test]
fn test_scan_three_copies_and_one_distinct_file() {
    let scanner = Scanner::new();
    let files = vec![
        record("one/a", 100, "same"),
        record("one/b", 100, "same"),
        record("two/c", 100, "same"),
        record("two/d", 50, "other"),
    ];
    let result = scanner.scan_directories(files).unwrap();
    assert_eq!(result.groups().len(), 1);
    assert_eq!(result.groups()[0].len(), 3);
    assert_eq!(result.get_wasted_space(), 200);
    assert_eq!(result.get_duplicate_count(), 2);
    assert_eq!(result.total_files(), 4);
    assert_eq!(result.total_size(), 350);
    for group in result.groups() {
        for member in group {
            assert_ne!(member.path, "two/d");
        }
    }
}

#[test]
fn test_scan_min_size_excludes_small_pair() {
    let mut scanner = Scanner::new();
    scanner.set_min_size(1000);
    let files = vec![record("a", 500, "same"), record("b", 500, "same")];
    let result = scanner.scan_directories(files).unwrap();
    assert!(result.groups().is_empty());
    assert_eq!(result.total_files(), 0);
}

#[test]
fn test_scan_allow_set_keeps_only_listed_extension() {
    let mut scanner = Scanner::new();
    scanner.set_include_extensions(vec!["txt".to_string()]);
    let found = vec![
        ("d/a.txt".to_string(), 10),
        ("d/a.log".to_string(), 10),
        ("d/b.txt".to_string(), 10),
        ("d/b.log".to_string(), 10),
    ];
    assert_eq!(scanner.collect_files(&found), vec!["d/a.txt", "d/b.txt"]);
    let files = vec![
        record("d/a.txt", 10, "t"),
        record("d/a.log", 10, "l"),
        record("d/b.txt", 10, "t"),
        record("d/b.log", 10, "l"),
    ];
    let result = scanner.scan_directories(files).unwrap();
    assert_eq!(result.groups().len(), 1);
    assert_eq!(paths(&result.groups()[0]), vec!["d/a.txt", "d/b.txt"]);
}

#[test]
fn test_should_include_file_rules() {
    let mut scanner = Scanner::new();
    assert!(scanner.should_include_file("x/noext", 0));
    scanner.set_min_size(10);
    scanner.set_max_size(20);
    assert!(!scanner.should_include_file("a.txt", 9));
    assert!(scanner.should_include_file("a.txt", 10));
    assert!(scanner.should_include_file("a.txt", 20));
    assert!(!scanner.should_include_file("a.txt", 21));
    scanner.set_include_extensions(vec!["TXT".to_string(), "md".to_string()]);
    assert!(scanner.should_include_file("a.txt", 15));
    assert!(scanner.should_include_file("a.Md", 15));
    assert!(!scanner.should_include_file("a.log", 15));
    assert!(!scanner.should_include_file("noext", 15));
    assert!(!scanner.should_include_file(".txt", 15));
    scanner.set_exclude_extensions(vec!["md".to_string()]);
    assert!(!scanner.should_include_file("a.md", 15));
    assert!(scanner.should_include_file("a.txt", 15));
}

#[test]
fn test_exclude_without_include() {
    let mut scanner = Scanner::new();
    scanner.set_exclude_extensions(vec!["Tmp".to_string()]);
    assert!(!scanner.should_include_file("a.tmp", 1));
    assert!(!scanner.should_include_file("a.TMP", 1));
    assert!(scanner.should_include_file("a.txt", 1));
    assert!(scanner.should_include_file("tmp", 1));
}

#[test]
fn test_setters_store_lowercase() {
    let mut scanner = Scanner::new();
    scanner.set_include_extensions(vec!["JPG".to_string(), "Png".to_string()]);
    scanner.set_exclude_extensions(vec!["LOG".to_string()]);
    scanner.set_verbose(true);
    assert_eq!(scanner.config().include_extensions, vec!["jpg", "png"]);
    assert_eq!(scanner.config().exclude_extensions, vec!["log"]);
    assert!(scanner.config().verbose);
    assert_eq!(scanner.config().min_size, 0);
    assert_eq!(scanner.config().max_size, None);
}

#[test]
fn test_default_config() {
    let config = ScanConfig::default();
    assert_eq!(config.min_size, 0);
    assert_eq!(config.max_size, None);
    assert!(config.include_extensions.is_empty());
    assert!(config.exclude_extensions.is_empty());
    assert!(!config.verbose);
    assert_eq!(Scanner::default().config().min_size, 0);
}

#[test]
fn test_group_files_reports_mismatch() {
    let scanner = Scanner::new();
    let files = vec![record("a", 1, "h"), record("b", 2, "h"), record("c", 1, "h")];
    assert_eq!(scanner.group_files(files).err(), Some(GroupError::SizeMismatch));
}

#[test]
fn test_group_files_of_nothing() {
    let scanner = Scanner::new();
    let result = scanner.group_files(Vec::new()).unwrap();
    assert!(result.groups().is_empty());
    assert_eq!(result.total_files(), 0);
}

#[test]
fn test_root_warning() {
    assert_eq!(
        root_warning("/missing", false, false),
        Some("Warning: Directory /missing does not exist".to_string())
    );
    assert_eq!(
        root_warning("/etc/hosts", true, false),
        Some("Warning: /etc/hosts is not a directory".to_string())
    );
    assert_eq!(root_warning("/tmp", true, true), None);
}

#[test]
fn test_calculate_hash_matches_blake3() {
    let expected = blake3::hash(b"abc").to_hex().to_string();
    assert_eq!(calculate_hash(&vec![b"abc".to_vec()]), Some(expected.clone()));
    assert_eq!(calculate_hash(&vec![b"a".to_vec(), b"".to_vec(), b"bc".to_vec()]), Some(expected));
    assert_eq!(
        calculate_hash(&Vec::new()),
        Some("af1349b9f5f9a1a6a0404dea36dcc9499bcb25c9adc112b7cc9a93cae41f3262".to_string())
    );
}

#[test]
fn test_content_hasher_streams() {
    let data: Vec<u8> = (0..3 * CHUNK_SIZE + 17).map(|i| (i % 251) as u8).collect();
    let mut hasher = ContentHasher::new();
    for chunk in data.chunks(CHUNK_SIZE) {
        assert!(hasher.update(chunk));
    }
    let streamed = hasher.finish();
    assert_eq!(streamed.len(), 64);
    assert_eq!(streamed, blake3::hash(&data).to_hex().to_string());
    assert_eq!(hasher.finish(), streamed);
    assert_ne!(streamed, ContentHasher::new().finish());
    assert_eq!(CHUNK_SIZE, 8192);
}

#[test]
fn test_analyze_duplicates() {
    let mut result = DedupResult::new();
    for name in ["s1", "s2", "s3"] {
        result.add_file(record(name, 1024, "small")).unwrap();
    }
    for name in ["m1", "m2"] {
        result.add_file(record(name, 1025, "medium")).unwrap();
    }
    for name in ["l1", "l2"] {
        result.add_file(record(name, 1048577, "large")).unwrap();
    }
    for name in ["e1", "e2"] {
        result.add_file(record(name, 1048576, "edge")).unwrap();
    }
    result.add_file(record("single", 5_000_000, "single")).unwrap();
    let analysis = analyze_duplicates(&result);
    assert_eq!(analysis.total_groups, 4);
    assert_eq!(analysis.total_duplicates, 5);
    assert_eq!(analysis.total_wasted_space, 2048 + 1025 + 1048577 + 1048576);
    assert_eq!(analysis.small_files, 2);
    assert_eq!(analysis.medium_files, 2);
    assert_eq!(analysis.large_files, 1);
    assert_eq!(analysis.largest_waste, ("l1".to_string(), 1048577));
}

#[test]
fn test_analyze_first_of_equal_wastes_wins() {
    let mut result = DedupResult::new();
    for (name, hash) in [("a1", "a"), ("b1", "b"), ("a2", "a"), ("b2", "b")] {
        result.add_file(record(name, 10, hash)).unwrap();
    }
    let analysis = analyze_duplicates(&result);
    assert_eq!(analysis.largest_waste, ("a1".to_string(), 10));
}

#[test]
fn test_analysis_of_nothing() {
    let analysis = analyze_duplicates(&DedupResult::new());
    assert_eq!(analysis.total_groups, 0);
    assert_eq!(analysis.total_duplicates, 0);
    assert_eq!(analysis.total_wasted_space, 0);
    assert_eq!(analysis.largest_waste, (String::new(), 0));
    let fresh = DedupAnalysis::new();
    assert_eq!(fresh.small_files + fresh.medium_files + fresh.large_files, 0);
    assert_eq!(DedupAnalysis::default().total_groups, 0);
}

#[test]
fn test_find_group_by_hash() {
    let mut result = DedupResult::new();
    result.add_file(record("a", 1, "h1")).unwrap();
    result.add_file(record("b", 2, "h2")).unwrap();
    result.add_file(record("c", 1, "h1")).unwrap();
    assert_eq!(result.find(&"h1".to_string()).map(paths), Some(vec!["a".to_string(), "c".to_string()]));
    assert_eq!(result.find(&"h2".to_string()).map(paths), Some(vec!["b".to_string()]));
    assert!(result.find(&"h3".to_string()).is_none());
    result.filter_duplicates();
    assert!(result.find(&"h2".to_string()).is_none());
}

#[test]
fn test_passes_takes_the_extension_as_given() {
    let mut scanner = Scanner::new();
    scanner.set_include_extensions(vec!["txt".to_string()]);
    assert!(scanner.passes(0, Some(&"txt".to_string())));
    assert!(!scanner.passes(0, Some(&"TXT".to_string())));
    assert!(!scanner.passes(0, None));
}

#[test]
fn test_recommendations() {
    let mut analysis = DedupAnalysis::new();
    assert_eq!(
        analysis.recommendations(),
        vec![
            "Always use --dry-run first to preview changes",
            "Consider backing up important files before deletion",
        ]
    );
    analysis.large_files = 1;
    analysis.total_duplicates = 101;
    analysis.total_wasted_space = 1_000_000_001;
    assert_eq!(
        analysis.recommendations(),
        vec![
            "Focus on large files first for maximum space savings",
            "Consider using hardlinks to save space without losing data",
            "Significant space savings possible (>1GB)",
            "Always use --dry-run first to preview changes",
            "Consider backing up important files before deletion",
        ]
    );
    analysis.total_duplicates = 100;
    analysis.total_wasted_space = 1_000_000_000;
    assert_eq!(analysis.recommendations().len(), 3);
}

#[test]
fn test_reexports() {
    let scanner = file_deduplication::Scanner::new();
    assert!(scanner.should_include_file("a", 0));
    let scan = DedupResult::new();
    let result = file_deduplication::perform_deduplication(
        &scan,
        &file_deduplication::DedupAction::Delete,
        true,
        &|_| file_deduplication::actions::FsReply::Done,
    );
    assert_eq!(result.total_files_processed(), 0);
}
