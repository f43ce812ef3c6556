use nodewipe::model::{ArtifactKind, Entry};
use nodewipe::workspace::{
    annotate_workspace_roots, find_workspace_root, group_by_workspace, package_json_path, workspace_marker_paths,
    workspace_search_dirs,
};

fn entry(path: &str, size: u64, root: Option<&str>) -> Entry {
    Entry {
        path: path.to_string(),
        size_bytes: size,
        kind: ArtifactKind::NodeModules,
        package_manager: None,
        last_modified: None,
        workspace_root: root.map(|r| r.to_string()),
    }
}

#[test]
fn groups_come_none_first_then_by_path() {
    let es = vec![
        entry("/m/apps/b/node_modules", 10, Some("/m")),
        entry("/solo/node_modules", 5, None),
        entry("/a/x/node_modules", 1, Some("/a")),
        entry("/m/apps/c/node_modules", 20, Some("/m")),
    ];
    let gs = group_by_workspace(es);
    assert_eq!(gs.len(), 3);
    assert_eq!(gs[0].0, None);
    assert_eq!(gs[0].1.root, "/solo/node_modules");
    assert_eq!(gs[0].1.total_size_bytes, 5);
    assert_eq!(gs[1].0, Some("/a".to_string()));
    assert_eq!(gs[1].1.root, "/a");
    assert_eq!(gs[2].0, Some("/m".to_string()));
    assert_eq!(gs[2].1.total_size_bytes, 30);
    let paths: Vec<&str> = gs[2].1.entries.iter().map(|e| e.path.as_str()).collect();
    assert_eq!(paths, vec!["/m/apps/b/node_modules", "/m/apps/c/node_modules"]);
}

#[test]
fn group_totals_add_up_to_the_whole() {
    let es = vec![
        entry("/m/a/node_modules", 3, Some("/m")),
        entry("/n/node_modules", 4, None),
        entry("/k/b/node_modules", 5, Some("/k")),
        entry("/m/c/node_modules", 6, Some("/m/")),
    ];
    let gs = group_by_workspace(es);
    let total: u64 = gs.iter().map(|g| g.1.total_size_bytes).sum();
    assert_eq!(total, 18);
    let counted: usize = gs.iter().map(|g| g.1.entries.len()).sum();
    assert_eq!(counted, 4);
}

#[test]
fn paths_equal_as_paths_share_a_group() {
    let es = vec![entry("/m/a/node_modules", 3, Some("/m")), entry("/m/c/node_modules", 6, Some("/m/"))];
    let gs = group_by_workspace(es);
    assert_eq!(gs.len(), 1);
    assert_eq!(gs[0].1.root, "/m");
    assert_eq!(gs[0].1.total_size_bytes, 9);
}

#[test]
fn grouping_nothing_gives_no_group() {
    assert!(group_by_workspace(Vec::new()).is_empty());
}

#[test]
fn annotation_sets_roots_in_order() {
    let mut es = vec![entry("/m/a/node_modules", 3, None), entry("/x/node_modules", 4, Some("/old"))];
    annotate_workspace_roots(&mut es, vec![Some("/m".to_string()), None]);
    assert_eq!(es[0].workspace_root, Some("/m".to_string()));
    assert_eq!(es[0].size_bytes, 3);
    assert_eq!(es[1].workspace_root, None);
    assert_eq!(es[1].path, "/x/node_modules");
}

fn s(v: &[&str]) -> Vec<String> {
    v.iter().map(|x| x.to_string()).collect()
}

#[test]
fn search_goes_from_the_parent_up_to_the_scan_root() {
    assert_eq!(workspace_search_dirs("/m/apps/a/node_modules", "/m"), s(&["/m/apps/a", "/m/apps", "/m"]));
    assert_eq!(workspace_search_dirs("/m/apps/a/node_modules", "/m/"), s(&["/m/apps/a", "/m/apps", "/m"]));
    assert_eq!(workspace_search_dirs("/x/node_modules", "/m"), s(&["/x", "/"]));
    assert_eq!(workspace_search_dirs("/", "/m"), s(&[]));
    assert_eq!(workspace_search_dirs("a/node_modules", "."), s(&["a", ""]));
}

#[test]
fn search_probes_the_marker_files() {
    assert_eq!(workspace_marker_paths("/m"), vec!["/m/pnpm-workspace.yaml".to_string(), "/m/lerna.json".to_string()]);
    assert_eq!(package_json_path("/m"), "/m/package.json");
}

#[test]
fn the_nearest_workspace_root_wins() {
    let markers = s(&["/m/pnpm-workspace.yaml", "/m/apps/lerna.json"]);
    assert_eq!(find_workspace_root("/m/apps/a/node_modules", "/m", &markers, &[]), Some("/m/apps".to_string()));
    let pkgs = vec![("/m/apps/a/package.json".to_string(), "{ \"workspaces\": [] }".to_string())];
    assert_eq!(find_workspace_root("/m/apps/a/node_modules", "/m", &markers, &pkgs), Some("/m/apps/a".to_string()));
}

#[test]
fn package_json_needs_a_workspaces_field() {
    let pkgs = vec![
        ("/m/apps/a/package.json".to_string(), "{ \"name\": \"a\" }".to_string()),
        ("/m/package.json".to_string(), "{ \"workspaces\": [\"apps/*\"] }".to_string()),
    ];
    assert_eq!(find_workspace_root("/m/apps/a/node_modules", "/m", &[], &pkgs), Some("/m".to_string()));
}

#[test]
fn the_search_stops_at_the_scan_root() {
    let markers = s(&["/lerna.json"]);
    assert_eq!(find_workspace_root("/m/a/node_modules", "/m", &markers, &[]), None);
    assert_eq!(find_workspace_root("/x/node_modules", "/m", &markers, &[]), Some("/".to_string()));
    assert_eq!(find_workspace_root("/m/a/node_modules", "/m", &[], &[]), None);
}
