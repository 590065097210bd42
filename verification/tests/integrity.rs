use file_integrity::build_report;
use file_integrity::calculate_md5_hash;
use file_integrity::hash_file_content;
use file_integrity::is_eligible;
use file_integrity::parse_report;
use file_integrity::path_list_text;
use file_integrity::regular_file_paths;
use file_integrity::split_path_list;
use file_integrity::build_dated_report;
use file_integrity::report_to_json;
use file_integrity::FileInfo;
use file_integrity::FileList;

#[test]
fn test_calculate_md5_hash() {
    let input = String::from("hello, world");
    let expected_hash = "e4d7f1b4ed2e42d15898f4b27b019da4";
    let calculated_hash = calculate_md5_hash(&input);
    assert_eq!(calculated_hash, expected_hash);
}

#[test]
fn test_md5_known_value_test() {
    let input = String::from("test");
    assert_eq!(calculate_md5_hash(&input), "098f6bcd4621d373cade4e832627b4f6");
}

#[test]
fn test_md5_deterministic() {
    let input = String::from("some arbitrary content\n");
    let first = calculate_md5_hash(&input);
    let second = calculate_md5_hash(&input);
    assert_eq!(first, second);
}

#[test]
fn test_md5_distinguishes_inputs() {
    let a = calculate_md5_hash(&String::from("a"));
    let b = calculate_md5_hash(&String::from("b"));
    assert_ne!(a, b);
    assert_eq!(a.len(), 32);
    assert_eq!(b.len(), 32);
}

#[test]
fn test_hash_file_valid_content() {
    let content = b"This is a test file.\n".to_vec();
    let result = hash_file_content("test_file.txt".to_string(), &Some(content));
    assert_eq!(result.md5_hash, "2d282102fa671256327d4767ec23bc6b");
    assert_eq!(result.filename, "test_file.txt");
}

#[test]
fn test_hash_file_nonexistent_file() {
    let file_path = "nonexistent_file.txt";
    let result = hash_file_content(file_path.to_string(), &None);
    let expected_result = FileInfo {
        filename: file_path.to_string(),
        md5_hash: "none".to_string(),
    };
    assert_eq!(result.md5_hash, expected_result.md5_hash);
    assert_eq!(result.filename, expected_result.filename);
}

#[test]
fn test_hash_file_invalid_utf8() {
    let content = vec![0xffu8, 0xfe, 0x00, 0x80];
    let result = hash_file_content("binary.dat".to_string(), &Some(content));
    assert_eq!(result.md5_hash, "none");
}

#[test]
fn test_hash_file_decoded_content_matches_string_digest() {
    let text = String::from("hello, world");
    let bytes = text.as_bytes().to_vec();
    let result = hash_file_content("greeting.txt".to_string(), &Some(bytes));
    assert_eq!(result.md5_hash, calculate_md5_hash(&text));
}

#[test]
fn test_is_eligible_reserved_prefixes() {
    assert!(!is_eligible("/sys/kernel/debug"));
    assert!(!is_eligible("/dev/null"));
    assert!(!is_eligible("/run/lock/pid"));
    assert!(!is_eligible("/proc/1/status"));
}

#[test]
fn test_is_eligible_ordinary_paths() {
    assert!(is_eligible("/home/user/file.txt"));
    assert!(is_eligible("relative/path.txt"));
    assert!(is_eligible(""));
    assert!(is_eligible("/system/file"));
    assert!(is_eligible("/devices/file"));
    assert!(is_eligible("sys/no-leading-slash"));
}

#[test]
fn test_hash_file_list_with_test_files() {
    let one = String::from("first file\n");
    let two = String::from("second file\n");
    let source = vec![
        ("a.txt".to_string(), Some(one.as_bytes().to_vec())),
        ("b.txt".to_string(), Some(two.as_bytes().to_vec())),
    ];
    let report = build_report("2023-08-10".to_string(), Some(source));
    assert_eq!(report.date, "2023-08-10");
    assert_eq!(report.files.len(), 2);
    assert_eq!(report.files[0].filename, "a.txt");
    assert_eq!(report.files[0].md5_hash, calculate_md5_hash(&one));
    assert_eq!(report.files[1].filename, "b.txt");
    assert_eq!(report.files[1].md5_hash, calculate_md5_hash(&two));
}

#[test]
fn test_hash_file_list_exclude_files() {
    let source = vec![
        ("/sys/kernel/x".to_string(), Some(b"a".to_vec())),
        ("/dev/null".to_string(), Some(b"b".to_vec())),
        ("/home/user/keep.txt".to_string(), Some(b"keep\n".to_vec())),
        ("/run/lock".to_string(), Some(b"c".to_vec())),
        ("/proc/self/maps".to_string(), Some(b"d".to_vec())),
    ];
    let report = build_report("2023-08-10".to_string(), Some(source));
    assert_eq!(report.files.len(), 1);
    assert_eq!(report.files[0].filename, "/home/user/keep.txt");
    for entry in &report.files {
        assert!(is_eligible(&entry.filename));
    }
}

#[test]
fn test_report_entry_for_unreadable_file_kept() {
    let source = vec![
        ("readable.txt".to_string(), Some(b"data".to_vec())),
        ("unreadable.txt".to_string(), None),
    ];
    let report = build_report("2024-01-01".to_string(), Some(source));
    assert_eq!(report.files.len(), 2);
    assert_eq!(report.files[1].filename, "unreadable.txt");
    assert_eq!(report.files[1].md5_hash, "none");
}

#[test]
fn test_missing_path_list_yields_empty_report() {
    let report = build_report("2024-02-02".to_string(), None);
    assert_eq!(report.files.len(), 0);
    assert_eq!(report.date, "2024-02-02");
}

#[test]
fn test_empty_path_list_yields_empty_report() {
    let report = build_report("2024-02-02".to_string(), Some(vec![]));
    assert_eq!(report.files.len(), 0);
    assert_eq!(report.date, "2024-02-02");
}

#[test]
fn test_dated_report_date_shape() {
    let report = build_dated_report(None);
    assert_eq!(report.files.len(), 0);
    let today = report.date;
    assert!(today.len() >= 10);
    let bytes = today.as_bytes();
    assert_eq!(bytes[bytes.len() - 3], b'-');
    assert_eq!(bytes[bytes.len() - 6], b'-');
    for (i, b) in bytes.iter().enumerate() {
        let from_end = bytes.len() - i;
        if from_end == 3 || from_end == 6 {
            assert_eq!(*b, b'-');
        } else {
            assert!(b.is_ascii_digit());
        }
    }
}

#[test]
fn test_walker_keeps_only_regular_files() {
    let entries = vec![
        ("/tmp/a.txt".to_string(), true),
        ("/tmp/subdir".to_string(), false),
        ("/tmp/b.txt".to_string(), true),
        ("/tmp/link".to_string(), false),
        ("/tmp/c.txt".to_string(), true),
    ];
    let paths = regular_file_paths(&entries);
    assert_eq!(paths.len(), 3);
    assert_eq!(paths, vec!["/tmp/a.txt", "/tmp/b.txt", "/tmp/c.txt"]);
}

#[test]
fn test_walker_empty() {
    let entries: Vec<(String, bool)> = vec![];
    let paths = regular_file_paths(&entries);
    assert_eq!(paths.len(), 0);
}

#[test]
fn test_report_json_exact_shape() {
    let report = FileList {
        date: "2023-08-10".to_string(),
        files: vec![FileInfo {
            filename: "a.txt".to_string(),
            md5_hash: "0cc175b9c0f1b6a831c399e269772661".to_string(),
        }],
    };
    let json = report_to_json(&report);
    assert_eq!(
        json,
        "{\"date\":\"2023-08-10\",\"files\":[{\"filename\":\"a.txt\",\"md5_hash\":\"0cc175b9c0f1b6a831c399e269772661\"}]}"
    );
}

#[test]
fn test_report_round_trip() {
    let report = FileList {
        date: "2023-08-10".to_string(),
        files: vec![
            FileInfo {
                filename: "/home/user/plain.txt".to_string(),
                md5_hash: "0cc175b9c0f1b6a831c399e269772661".to_string(),
            },
            FileInfo {
                filename: "odd \"name\" with \\ and \n\t chars".to_string(),
                md5_hash: "none".to_string(),
            },
        ],
    };
    let json = report_to_json(&report);
    let parsed = parse_report(&json).expect("a written report must parse back");
    assert_eq!(parsed.date, report.date);
    assert_eq!(parsed.files.len(), report.files.len());
    for (p, q) in parsed.files.iter().zip(report.files.iter()) {
        assert_eq!(p.filename, q.filename);
        assert_eq!(p.md5_hash, q.md5_hash);
    }
}

#[test]
fn test_report_round_trip_empty() {
    let report = FileList {
        date: "2024-12-31".to_string(),
        files: vec![],
    };
    let json = report_to_json(&report);
    assert_eq!(json, "{\"date\":\"2024-12-31\",\"files\":[]}");
    let parsed = parse_report(&json).expect("a written report must parse back");
    assert_eq!(parsed.date, "2024-12-31");
    assert_eq!(parsed.files.len(), 0);
}

#[test]
fn test_path_list_text_shape() {
    let paths = vec!["/tmp/a.txt".to_string(), "/tmp/b.txt".to_string()];
    assert_eq!(path_list_text(&paths), "/tmp/a.txt\n/tmp/b.txt\n");
    assert_eq!(path_list_text(&vec![]), "");
}

#[test]
fn test_path_list_round_trip() {
    let paths = vec![
        "/tmp/a.txt".to_string(),
        "name with spaces".to_string(),
        "".to_string(),
        "/tmp/c.txt".to_string(),
    ];
    let text = path_list_text(&paths);
    assert_eq!(split_path_list(&text), paths);
}

#[test]
fn test_split_path_list_unterminated_tail() {
    let lines = split_path_list("a\nb\nc");
    assert_eq!(lines, vec!["a", "b", "c"]);
}

#[test]
fn test_parse_rejects_garbage() {
    assert!(parse_report("not a report").is_none());
    assert!(parse_report("").is_none());
    assert!(parse_report("{\"date\":\"2024-01-01\",\"files\":[]").is_none());
}
