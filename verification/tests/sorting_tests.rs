use nodewipe::model::{ArtifactKind, Entry, WorkspaceGroup};
use nodewipe::sorting::{arrange_groups, sort_by_size_desc};

fn entry(path: &str, size: u64) -> Entry {
    Entry {
        path: path.to_string(),
        size_bytes: size,
        kind: ArtifactKind::NodeModules,
        package_manager: None,
        last_modified: None,
        workspace_root: None,
    }
}

fn paths(es: &[Entry]) -> Vec<&str> {
    es.iter().map(|e| e.path.as_str()).collect()
}

#[test]
fn largest_first_and_ties_keep_their_order() {
    let es = vec![entry("a", 5), entry("b", 10), entry("c", 5), entry("d", 1), entry("e", 10)];
    let sorted = sort_by_size_desc(es);
    assert_eq!(paths(&sorted), vec!["b", "e", "a", "c", "d"]);
}

#[test]
fn sorting_nothing_or_one() {
    assert!(sort_by_size_desc(Vec::<Entry>::new()).is_empty());
    assert_eq!(paths(&sort_by_size_desc(vec![entry("x", 3)])), vec!["x"]);
}

#[test]
fn groups_by_total_then_entries_by_size() {
    let g1 = WorkspaceGroup {
        root: "/small".to_string(),
        entries: vec![entry("s1", 1), entry("s2", 2)],
        total_size_bytes: 3,
    };
    let g2 = WorkspaceGroup {
        root: "/big".to_string(),
        entries: vec![entry("b1", 4), entry("b2", 6), entry("b3", 4)],
        total_size_bytes: 14,
    };
    let out = arrange_groups(vec![g1, g2]);
    assert_eq!(out[0].root, "/big");
    assert_eq!(paths(&out[0].entries), vec!["b2", "b1", "b3"]);
    assert_eq!(out[1].root, "/small");
    assert_eq!(paths(&out[1].entries), vec!["s2", "s1"]);
}
