use dirfill::config::{bind_config, repair_bounds, ConfigError, RawArgs, RequiredArg, SizeField};
use dirfill::size::SizeError;

fn raw(
    folder_flag: Option<&str>,
    folder_pos: Option<&str>,
    size_flag: Option<&str>,
    size_pos: Option<&str>,
    depth: u64,
    min: &str,
    max: &str,
) -> RawArgs {
    RawArgs {
        folder_flag: folder_flag.map(|s| s.to_string()),
        folder_pos: folder_pos.map(|s| s.to_string()),
        size_flag: size_flag.map(|s| s.to_string()),
        size_pos: size_pos.map(|s| s.to_string()),
        depth,
        min: min.to_string(),
        max: max.to_string(),
    }
}

#[test]
fn flagged_form_wins_over_positional() {
    let (c, repaired) = bind_config(raw(
        Some("/tmp/flag"),
        Some("/tmp/pos"),
        Some("2kib"),
        Some("7kib"),
        1,
        "1kib",
        "5kib",
    ))
    .unwrap();
    assert_eq!(c.folder_path, "/tmp/flag");
    assert_eq!(c.target_size, 2048);
    assert!(!repaired);
}

#[test]
fn positional_form_fills_in() {
    let (c, _) = bind_config(raw(None, Some("/tmp/t4"), None, Some("3kib"), 2, "1kib", "1kib"))
        .unwrap();
    assert_eq!(c.folder_path, "/tmp/t4");
    assert_eq!(c.target_size, 3072);
    assert_eq!(c.max_depth, 2);
    assert_eq!(c.min_file_size, 1024);
    assert_eq!(c.max_file_size, 1024);
}

#[test]
fn missing_folder_path_is_reported() {
    match bind_config(raw(None, None, Some("1kib"), None, 1, "1kib", "5kib")) {
        Err(ConfigError::MissingArgument { which }) => {
            assert_eq!(which, RequiredArg::FolderPath);
        },
        other => panic!("unexpected outcome: {:?}", other.map(|_| ())),
    }
}

#[test]
fn missing_size_is_reported() {
    match bind_config(raw(Some("/tmp/t"), None, None, None, 1, "1kib", "5kib")) {
        Err(ConfigError::MissingArgument { which }) => {
            assert_eq!(which, RequiredArg::Size);
        },
        other => panic!("unexpected outcome: {:?}", other.map(|_| ())),
    }
}

#[test]
fn inverted_bounds_are_repaired_with_a_warning_flag() {
    let (c, repaired) = bind_config(raw(
        Some("/tmp/t3"),
        None,
        Some("5kib"),
        None,
        1,
        "2kib",
        "1kib",
    ))
    .unwrap();
    assert!(repaired);
    assert_eq!(c.min_file_size, 2048);
    assert_eq!(c.max_file_size, 2048);
}

#[test]
fn ordered_bounds_are_kept() {
    let (c, repaired) = bind_config(raw(
        Some("/tmp/t"),
        None,
        Some("5kib"),
        None,
        1,
        "1kib",
        "2kib",
    ))
    .unwrap();
    assert!(!repaired);
    assert_eq!(c.min_file_size, 1024);
    assert_eq!(c.max_file_size, 2048);
}

#[test]
fn repair_is_idempotent() {
    let ((mn, mx), repaired) = repair_bounds(2048, 1024);
    assert!(repaired);
    assert_eq!((mn, mx), (2048, 2048));
    let ((mn2, mx2), repaired2) = repair_bounds(mn, mx);
    assert!(!repaired2);
    assert_eq!((mn2, mx2), (mn, mx));
}

#[test]
fn zero_bounds_with_positive_target_cannot_progress() {
    match bind_config(raw(Some("/tmp/t"), None, Some("1kib"), None, 1, "0B", "0B")) {
        Err(ConfigError::ImpossibleProgress) => {},
        other => panic!("unexpected outcome: {:?}", other.map(|_| ())),
    }
}

#[test]
fn zero_bounds_with_zero_target_are_fine() {
    let (c, _) = bind_config(raw(Some("/tmp/t"), None, Some("0B"), None, 1, "0B", "0B")).unwrap();
    assert_eq!(c.target_size, 0);
}

#[test]
fn bad_size_string_reports_the_field_and_the_character() {
    match bind_config(raw(Some("/tmp/t6"), None, Some("1kib"), None, 1, "potato", "1kib")) {
        Err(ConfigError::SizeParse { which, err }) => {
            assert_eq!(which, SizeField::MinFile);
            match err {
                SizeError::BadUnit { found, expected } => {
                    assert_eq!(found, 'p');
                    assert_eq!(expected, vec!['B', 'K', 'M', 'G', 'T', 'P', 'E']);
                },
                other => panic!("unexpected size error: {:?}", other),
            }
        },
        other => panic!("unexpected outcome: {:?}", other.map(|_| ())),
    }
}

#[test]
fn binding_error_messages() {
    let e = bind_config(raw(None, None, None, None, 1, "1kib", "5kib")).unwrap_err();
    assert_eq!(e.message(), "Folder path must be specified");
    let e = bind_config(raw(Some("/t"), None, Some("1kib"), None, 1, "potato", "5kib"))
        .unwrap_err();
    assert_eq!(e.message(), "invalid size unit 'p'; accepted here: BKMGTPE");
}
