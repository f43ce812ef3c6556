use nodewipe::browser::{deletion_order, Action, Browser, Key, Modal, RestoreStatus, Stage, Status};
use nodewipe::deleter::DeleteMode;
use nodewipe::model::{ArtifactKind, Entry};

fn entry(path: &str, size: u64, kind: ArtifactKind) -> Entry {
    Entry {
        path: path.to_string(),
        size_bytes: size,
        kind,
        package_manager: None,
        last_modified: None,
        workspace_root: None,
    }
}

fn scanned() -> Browser {
    let mut b = Browser::new("/r".to_string(), vec!["old".to_string()], &[]);
    b.handle_key(Key::Char('x'));
    b.handle_key(Key::Enter);
    b.scan_finished(
        vec![
            entry("/r/a/node_modules", 30, ArtifactKind::NodeModules),
            entry("/r/b/.venv", 20, ArtifactKind::PythonVenv),
            entry("/r/c/target", 10, ArtifactKind::RustTarget),
        ],
        2,
    );
    b
}

#[test]
fn config_exclusions_are_trimmed_and_unknown_ones_dropped() {
    let b = Browser::new(
        "/r".to_string(),
        vec![],
        &[" venv ".to_string(), "bogus".to_string(), "venv".to_string(), "dist".to_string()],
    );
    assert_eq!(b.excluded_kinds, vec![ArtifactKind::PythonVenv, ArtifactKind::GenericDist]);
    assert_eq!(b.stage, Stage::Splash);
}

#[test]
fn splash_leads_to_type_selection_or_quits() {
    let mut b = Browser::new("/r".to_string(), vec![], &[]);
    assert!(matches!(b.handle_key(Key::Char('q')), Action::Quit));
    assert!(matches!(b.handle_key(Key::Esc), Action::Quit));
    assert!(matches!(b.handle_key(Key::Down), Action::Nothing));
    assert_eq!(b.stage, Stage::SelectTypes);
}

#[test]
fn type_selection_toggles_and_starts_the_scan() {
    let mut b = Browser::new("/r".to_string(), vec!["legacy".to_string()], &[]);
    b.handle_key(Key::Char(' '));
    assert_eq!(b.stage, Stage::SelectTypes);
    assert!(b.excluded_kinds.is_empty());
    b.handle_key(Key::Char(' '));
    assert_eq!(b.excluded_kinds, vec![ArtifactKind::NodeModules]);
    b.handle_key(Key::Char(' '));
    assert!(b.excluded_kinds.is_empty());
    b.handle_key(Key::Down);
    b.handle_key(Key::Char(' '));
    assert_eq!(b.excluded_kinds, vec![ArtifactKind::PythonVenv]);
    b.handle_key(Key::Char('n'));
    assert_eq!(b.excluded_kinds, ArtifactKind::all());
    b.handle_key(Key::Char('a'));
    assert!(b.excluded_kinds.is_empty());
    for _ in 0..20 {
        b.handle_key(Key::Char('j'));
    }
    assert_eq!(b.filter_cursor, 11);
    b.handle_key(Key::Up);
    assert_eq!(b.filter_cursor, 10);
    match b.handle_key(Key::Enter) {
        Action::StartScan { root, exclude_kinds, ignore_patterns } => {
            assert_eq!(root, "/r");
            assert!(exclude_kinds.is_empty());
            assert_eq!(ignore_patterns, vec!["legacy".to_string()]);
        }
        other => panic!("unexpected {other:?}"),
    }
    assert_eq!(b.stage, Stage::Scanning);
    assert!(matches!(b.status, Status::Scanning));
}

#[test]
fn while_scanning_only_q_does_something() {
    let mut b = Browser::new("/r".to_string(), vec![], &[]);
    b.handle_key(Key::Char('x'));
    b.handle_key(Key::Enter);
    assert!(matches!(b.handle_key(Key::Char('d')), Action::Nothing));
    assert_eq!(b.stage, Stage::Scanning);
    b.scan_tick();
    b.scan_tick();
    assert_eq!(b.spinner_tick, 2);
    assert!(matches!(b.handle_key(Key::Char('q')), Action::Quit));
}

#[test]
fn finished_scan_shows_results() {
    let b = scanned();
    assert_eq!(b.stage, Stage::Results);
    assert_eq!(b.cursor, 0);
    assert!(matches!(b.status, Status::Found { count: 3, seconds: 2 }));
}

#[test]
fn failed_scan_reports_the_error() {
    let mut b = scanned();
    b.scan_failed("permission denied".to_string());
    assert_eq!(b.stage, Stage::Results);
    assert_eq!(b.entries.len(), 3);
    match &b.status {
        Status::ScanError(m) => assert_eq!(m, "permission denied"),
        other => panic!("unexpected {other:?}"),
    }
}

#[test]
fn cursor_is_clamped_to_the_list() {
    let mut b = scanned();
    b.handle_key(Key::Up);
    assert_eq!(b.cursor, 0);
    for _ in 0..5 {
        b.handle_key(Key::Down);
    }
    assert_eq!(b.cursor, 2);
    b.handle_key(Key::Char('k'));
    assert_eq!(b.cursor, 1);
}

#[test]
fn selection_toggles_and_defaults_to_the_cursor() {
    let mut b = scanned();
    assert_eq!(b.selected_indices(), vec![0]);
    assert_eq!(b.total_selected_size(), 30);
    b.handle_key(Key::Down);
    b.handle_key(Key::Down);
    b.handle_key(Key::Char(' '));
    b.handle_key(Key::Up);
    b.handle_key(Key::Up);
    b.handle_key(Key::Char(' '));
    assert_eq!(b.selected_indices(), vec![0, 2]);
    assert_eq!(b.total_selected_size(), 40);
    b.handle_key(Key::Char(' '));
    assert_eq!(b.selected_indices(), vec![2]);
}

#[test]
fn trash_request_asks_for_confirmation_then_deletes_largest_index_first() {
    let mut b = scanned();
    b.handle_key(Key::Char(' '));
    b.handle_key(Key::Down);
    b.handle_key(Key::Down);
    b.handle_key(Key::Char(' '));
    assert!(matches!(b.handle_key(Key::Char('d')), Action::Nothing));
    assert!(matches!(b.modal, Some(Modal::Confirm { mode: DeleteMode::Trash, count: 2 })));
    assert!(matches!(b.status, Status::Confirm));
    match b.handle_key(Key::Char('y')) {
        Action::Delete { order, mode } => {
            assert_eq!(order, vec![2, 0]);
            assert_eq!(mode, DeleteMode::Trash);
        }
        other => panic!("unexpected {other:?}"),
    }
    assert!(b.modal.is_none());
    assert!(b.pending_action.is_none());
    assert!(b.selected.is_empty());

    assert_eq!(b.deletion_target(2), Some(("/r/c/target".to_string(), 10)));
    b.record_deletion(2, true);
    b.record_deletion(0, false);
    b.finish_deletions(DeleteMode::Trash);
    assert_eq!(b.entries.len(), 2);
    assert!(matches!(b.status, Status::Freed { bytes: 10, mode: DeleteMode::Trash, failed: 1 }));
    assert_eq!(b.freed, 0);
    assert_eq!(b.failed, 0);
}

#[test]
fn permanent_request_uses_its_own_popup() {
    let mut b = scanned();
    b.handle_key(Key::Char('p'));
    assert!(matches!(b.modal, Some(Modal::ConfirmPermanent { count: 1 })));
}

#[test]
fn risky_items_get_a_warning_popup() {
    let mut b = scanned();
    b.handle_key(Key::Down);
    b.handle_key(Key::Char('a'));
    match &b.modal {
        Some(Modal::Warning { mode, warnings }) => {
            assert_eq!(*mode, DeleteMode::Archive);
            assert_eq!(warnings.len(), 1);
            assert!(warnings[0].starts_with("/r/b/.venv: This is a Python virtual environment"));
        }
        other => panic!("unexpected {other:?}"),
    }
    assert_eq!(b.risk_warnings(&[0, 2]), Vec::<String>::new());
}

#[test]
fn any_other_key_cancels_a_pending_deletion() {
    let mut b = scanned();
    b.handle_key(Key::Char('d'));
    assert!(matches!(b.handle_key(Key::Char('n')), Action::Nothing));
    assert!(b.modal.is_none());
    assert!(matches!(b.status, Status::Cancelled));
    assert_eq!(b.entries.len(), 3);
}

#[test]
fn results_keys_switch_screens_and_rescan() {
    let mut b = scanned();
    assert!(matches!(b.handle_key(Key::Char('R')), Action::FindArchives));
    assert_eq!(b.stage, Stage::Restore);
    b.handle_key(Key::Esc);
    assert_eq!(b.stage, Stage::Results);
    assert!(matches!(b.handle_key(Key::Char('t')), Action::Nothing));
    assert_eq!(b.stage, Stage::SelectTypes);
    b.handle_key(Key::Enter);
    b.scan_finished(vec![], 0);
    assert!(matches!(b.handle_key(Key::Char('r')), Action::StartScan { .. }));
    assert_eq!(b.stage, Stage::Scanning);
}

#[test]
fn restore_screen_lists_and_restores_archives() {
    let mut b = scanned();
    b.handle_key(Key::Char('R'));
    b.set_archives(vec![]);
    assert!(matches!(b.restore_status, RestoreStatus::NoArchives));
    assert!(matches!(b.handle_key(Key::Enter), Action::Nothing));
    b.set_archives(vec!["/r/a/a-node_modules-backup.tar.gz".to_string(), "/r/x-y-backup.tar.gz".to_string()]);
    assert!(matches!(b.restore_status, RestoreStatus::Found(2)));
    b.handle_key(Key::Down);
    b.handle_key(Key::Down);
    assert_eq!(b.restore_cursor, 1);
    match b.handle_key(Key::Enter) {
        Action::Restore(a) => assert_eq!(a, "/r/x-y-backup.tar.gz"),
        other => panic!("unexpected {other:?}"),
    }
    assert!(matches!(b.restore_finished(Ok("/r/y".to_string())), Action::FindArchives));
    assert!(matches!(&b.restore_status, RestoreStatus::Restored(p) if p == "/r/y"));
    assert!(matches!(b.restore_finished(Err("exists".to_string())), Action::Nothing));
    assert!(matches!(&b.restore_status, RestoreStatus::Failed(m) if m == "exists"));
    b.handle_key(Key::Char('q'));
    assert_eq!(b.stage, Stage::Results);
}

#[test]
fn deletion_order_is_descending() {
    assert_eq!(deletion_order(&vec![1, 5, 3]), vec![5, 3, 1]);
    assert_eq!(deletion_order(&vec![]), Vec::<usize>::new());
}

#[test]
fn unbound_keys_change_nothing() {
    let mut b = scanned();
    b.handle_key(Key::Down);
    b.handle_key(Key::Char(' '));
    assert!(matches!(b.handle_key(Key::Other), Action::Nothing));
    assert!(matches!(b.handle_key(Key::Char('z')), Action::Nothing));
    assert_eq!(b.cursor, 1);
    assert_eq!(b.selected, vec![1]);
    assert_eq!(b.stage, Stage::Results);
    assert!(b.modal.is_none());
}

#[test]
fn screen_keys_also_cancel_a_pending_deletion() {
    for key in [Key::Char('t'), Key::Char('R'), Key::Char('q')] {
        let mut b = scanned();
        b.handle_key(Key::Char('p'));
        assert!(matches!(b.handle_key(key), Action::Nothing));
        assert_eq!(b.stage, Stage::Results);
        assert!(b.pending_action.is_none());
        assert!(b.modal.is_none());
        assert!(matches!(b.status, Status::Cancelled));
        assert!(matches!(b.handle_key(Key::Char('y')), Action::Nothing));
    }
}

#[test]
fn a_new_browser_starts_empty() {
    let b = Browser::new("/r".to_string(), vec![], &[]);
    assert_eq!(b.cursor, 0);
    assert!(matches!(b.status, Status::Empty));
    assert!(b.pending_action.is_none() && b.modal.is_none());
    assert!(matches!(b.restore_status, RestoreStatus::Empty));
    assert_eq!((b.freed, b.failed, b.spinner_tick, b.filter_cursor), (0, 0, 0, 0));
}

#[test]
fn popup_wording() {
    let (t, lines, warn) = Modal::ConfirmPermanent { count: 1 }.text();
    assert_eq!(t, "Confirm permanent delete");
    assert_eq!(lines, vec!["Permanently delete 1 item?", "", "This cannot be undone.", "", "y = confirm  ·  any other key = cancel"]);
    assert!(!warn);
    let (t, lines, _) = Modal::Confirm { mode: DeleteMode::Trash, count: 12 }.text();
    assert_eq!(t, "Confirm move to trash");
    assert_eq!(lines[0], "Move to trash: 12 items?");
    let (t, lines, _) = Modal::Confirm { mode: DeleteMode::Archive, count: 0 }.text();
    assert_eq!(t, "Confirm archive then delete");
    assert_eq!(lines[0], "Archive and delete: 0 items?");
    let (t, lines, warn) = Modal::Warning {
        mode: DeleteMode::Archive,
        warnings: vec!["/r/.venv: first: second".to_string(), "/x/venv: note".to_string()],
    }
    .text();
    assert_eq!(t, "⚠  Warning — archive delete");
    assert_eq!(lines, vec!["first", "second", "", "note", "", "Proceed with Archive? (y = yes · any other key = cancel)"]);
    assert!(warn);
}

#[test]
fn scans_keep_the_exclusions_and_patterns() {
    let mut b = Browser::new("/r".to_string(), vec!["legacy".to_string()], &["venv".to_string()]);
    b.handle_key(Key::Char('x'));
    match b.handle_key(Key::Enter) {
        Action::StartScan { exclude_kinds, ignore_patterns, .. } => {
            assert_eq!(exclude_kinds, vec![ArtifactKind::PythonVenv]);
            assert_eq!(ignore_patterns, vec!["legacy".to_string()]);
        }
        other => panic!("unexpected {other:?}"),
    }
    b.scan_finished(vec![], 0);
    match b.handle_key(Key::Char('r')) {
        Action::StartScan { root, exclude_kinds, ignore_patterns } => {
            assert_eq!(root, "/r");
            assert_eq!(exclude_kinds, vec![ArtifactKind::PythonVenv]);
            assert_eq!(ignore_patterns, vec!["legacy".to_string()]);
        }
        other => panic!("unexpected {other:?}"),
    }
}

#[test]
fn cursor_falls_back_to_the_last_entry_after_deletion() {
    let mut b = scanned();
    b.handle_key(Key::Down);
    b.handle_key(Key::Down);
    b.handle_key(Key::Char('d'));
    match b.handle_key(Key::Char('y')) {
        Action::Delete { order, .. } => assert_eq!(order, vec![2]),
        other => panic!("unexpected {other:?}"),
    }
    b.record_deletion(2, true);
    assert_eq!(b.cursor, 1);
    b.finish_deletions(DeleteMode::Trash);
    assert_eq!(b.cursor, 1);
    assert_eq!(b.entries.len(), 2);
}
