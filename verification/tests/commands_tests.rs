use nodewipe::commands::{
    check_delete_request, duration_in_range, is_backup_archive_name, kind_display, merge_exclude_kinds,
    min_mb_bytes, parse_duration, parse_exclude_types, plan_delete_command, retain_min_size, retain_older_than,
    total_size, DeleteCommandStep, DeleteRequestError, DurationError,
};
use nodewipe::deleter::DeleteMode;
use nodewipe::model::{ArtifactKind, Entry, PackageManager};

fn s(v: &[&str]) -> Vec<String> {
    v.iter().map(|x| x.to_string()).collect()
}

fn entry(path: &str, size: u64, modified: Option<i128>) -> Entry {
    Entry {
        path: path.to_string(),
        size_bytes: size,
        kind: ArtifactKind::PythonPycache,
        package_manager: None,
        last_modified: modified,
        workspace_root: None,
    }
}

fn dur(x: &str) -> Result<u64, DurationError> {
    assert!(duration_in_range(x));
    parse_duration(x)
}

#[test]
fn exclude_types_are_trimmed_slugs() {
    assert_eq!(
        parse_exclude_types(&s(&["venv", " pycache ", "rust_target"])),
        Ok(vec![ArtifactKind::PythonVenv, ArtifactKind::PythonPycache, ArtifactKind::RustTarget])
    );
    assert_eq!(parse_exclude_types(&[]), Ok(vec![]));
}

#[test]
fn the_first_unknown_type_is_reported() {
    assert_eq!(parse_exclude_types(&s(&["venv", "bogus", "worse"])), Err("bogus".to_string()));
}

#[test]
fn merged_exclusions_are_sorted_by_slug_without_repeats() {
    let cli = vec![ArtifactKind::PythonVenv, ArtifactKind::RustTarget, ArtifactKind::PythonVenv];
    let cfg = vec![ArtifactKind::NodeModules, ArtifactKind::RustTarget];
    assert_eq!(
        merge_exclude_kinds(&cli, &cfg),
        vec![ArtifactKind::NodeModules, ArtifactKind::RustTarget, ArtifactKind::PythonVenv]
    );
    assert_eq!(merge_exclude_kinds(&[], &[]), vec![]);
}

#[test]
fn durations_in_each_unit() {
    assert_eq!(dur("30d"), Ok(30 * 86_400));
    assert_eq!(dur("2w"), Ok(14 * 86_400));
    assert_eq!(dur("6m"), Ok(180 * 86_400));
    assert_eq!(dur("1y"), Ok(365 * 86_400));
    assert_eq!(dur("5D"), Ok(5 * 86_400));
}

#[test]
fn a_bare_number_is_days() {
    assert_eq!(dur("10"), Ok(864_000));
    assert_eq!(dur("  7 "), Ok(604_800));
    assert_eq!(dur("0"), Ok(0));
}

#[test]
fn malformed_durations_are_refused() {
    assert_eq!(dur("abc"), Err(DurationError::InvalidNumber));
    assert_eq!(dur(""), Err(DurationError::InvalidNumber));
    assert_eq!(dur("d"), Err(DurationError::InvalidNumber));
    assert_eq!(dur("-3d"), Err(DurationError::InvalidNumber));
    assert_eq!(dur("5x"), Err(DurationError::InvalidUnit));
    assert_eq!(dur("+2w"), Ok(14 * 86_400));
}

#[test]
fn huge_durations_are_out_of_range() {
    assert!(!duration_in_range("213503982334602y"));
    assert!(!duration_in_range("18446744073709551615"));
    assert!(duration_in_range("1000y"));
    // A number beyond u64 is no overflow but a parse error.
    assert_eq!(dur("99999999999999999999y"), Err(DurationError::InvalidNumber));
}

#[test]
fn min_size_filter() {
    assert_eq!(min_mb_bytes(50), 52_428_800);
    let kept = retain_min_size(vec![entry("a", 10, None), entry("b", 5, None), entry("c", 11, None)], 10);
    let paths: Vec<&str> = kept.iter().map(|e| e.path.as_str()).collect();
    assert_eq!(paths, vec!["a", "c"]);
}

#[test]
fn older_than_keeps_only_known_old_entries() {
    let now: i128 = 100 * 1_000_000_000;
    let es = vec![
        entry("old", 1, Some(0)),
        entry("new", 1, Some(95 * 1_000_000_000)),
        entry("unknown", 1, None),
        entry("future", 1, Some(200 * 1_000_000_000)),
        entry("edge", 1, Some(90 * 1_000_000_000)),
    ];
    let kept = retain_older_than(es, now, 10);
    let paths: Vec<&str> = kept.iter().map(|e| e.path.as_str()).collect();
    assert_eq!(paths, vec!["old", "edge"]);
}

#[test]
fn total_of_sizes() {
    assert_eq!(total_size(&[entry("a", 3, None), entry("b", 4, None)]), 7);
    assert_eq!(total_size(&[]), 0);
}

#[test]
fn delete_command_gate() {
    assert_eq!(plan_delete_command(0, true, true), DeleteCommandStep::NoPaths);
    assert_eq!(plan_delete_command(2, true, false), DeleteCommandStep::Preview);
    assert_eq!(plan_delete_command(2, true, true), DeleteCommandStep::Preview);
    assert_eq!(plan_delete_command(1, false, false), DeleteCommandStep::NeedsConfirmation);
    assert_eq!(plan_delete_command(1, false, true), DeleteCommandStep::Proceed);
}

#[test]
fn desktop_delete_requests_are_checked() {
    assert!(matches!(check_delete_request("trash", 2, 2), Ok(DeleteMode::Trash)));
    assert!(matches!(check_delete_request("archive", 0, 0), Ok(DeleteMode::Archive)));
    assert!(matches!(check_delete_request("permanent", 1, 1), Ok(DeleteMode::Permanent)));
    match check_delete_request("bogus", 1, 2) {
        Err(DeleteRequestError::UnknownMode(m)) => assert_eq!(m, "bogus"),
        other => panic!("unexpected {other:?}"),
    }
    assert!(matches!(check_delete_request("Trash", 1, 1), Err(DeleteRequestError::UnknownMode(_))));
    assert!(matches!(check_delete_request("trash", 1, 2), Err(DeleteRequestError::LengthMismatch)));
}

#[test]
fn kind_column_shows_the_package_manager() {
    let mut e = entry("/p/node_modules", 1, None);
    e.kind = ArtifactKind::NodeModules;
    assert_eq!(kind_display(&e), "node_modules");
    e.package_manager = Some(PackageManager::Pnpm);
    assert_eq!(kind_display(&e), "node_modules   (Pnpm)");
    e.kind = ArtifactKind::TurboCache;
    e.package_manager = Some(PackageManager::Npm);
    assert_eq!(kind_display(&e), "Turborepo cache (Npm)");
}

#[test]
fn backup_archive_names() {
    assert!(is_backup_archive_name("shop-node_modules-backup.tar.gz"));
    assert!(is_backup_archive_name("-backup.tar.gz"));
    assert!(!is_backup_archive_name("shop.tar.gz"));
    assert!(!is_backup_archive_name("backup.tar.gz"));
}

#[test]
fn bare_numbers_equal_their_day_suffix() {
    for n in ["0", "1", "30", "365", "12345"] {
        assert_eq!(dur(n), dur(&format!("{n}d")));
    }
}

#[test]
fn delete_command_fails_when_any_deletion_failed() {
    assert!(!nodewipe::commands::delete_command_failed(&[]));
    assert!(!nodewipe::commands::delete_command_failed(&[true, true]));
    assert!(nodewipe::commands::delete_command_failed(&[true, false, true]));
}
