use nodewipe::ignorefile::{is_ignored, parse_ignore_patterns};
use nodewipe::paths::{components, file_name, join, parent};

fn pats(v: &[&str]) -> Vec<String> {
    v.iter().map(|s| s.to_string()).collect()
}

#[test]
fn ignore_file_skips_comments_blanks_and_trailing_slashes() {
    let content = "# my ignores\n\nlegacy-project/\n  apps/old-site  \n   \n#another\nvendor//\n";
    assert_eq!(parse_ignore_patterns(content), pats(&["legacy-project", "apps/old-site", "vendor"]));
}

#[test]
fn ignore_file_handles_crlf_and_no_final_newline() {
    assert_eq!(parse_ignore_patterns("a\r\nb"), pats(&["a", "b"]));
    assert_eq!(parse_ignore_patterns(""), pats(&[]));
}

#[test]
fn no_patterns_ignore_nothing() {
    assert!(!is_ignored("/home/me/proj/node_modules", &[]));
}

#[test]
fn bare_name_matches_any_component() {
    let p = pats(&["legacy-project"]);
    assert!(is_ignored("/home/me/legacy-project", &p));
    assert!(is_ignored("/home/me/legacy-project/node_modules", &p));
    assert!(!is_ignored("/home/me/legacy-project-2/node_modules", &p));
    assert!(!is_ignored("/home/me/legacy", &p));
}

#[test]
fn multi_segment_pattern_matches_an_ancestor_by_components() {
    let p = pats(&["apps/old-site"]);
    assert!(is_ignored("/repo/apps/old-site", &p));
    assert!(is_ignored("/repo/apps/old-site/node_modules", &p));
    assert!(!is_ignored("/repo/apps/new-site", &p));
    assert!(!is_ignored("/repo/myapps/old-site", &p));
    assert!(!is_ignored("/repo/apps/old-site-2", &p));
}

#[test]
fn absolute_patterns_match_from_the_root() {
    let p = pats(&["/repo/apps"]);
    assert!(is_ignored("/repo/apps/x", &p));
    assert!(!is_ignored("/other/repo/apps/x", &p));
}

#[test]
fn backslashes_separate_only_in_longer_patterns() {
    // One component: compared with the path's own components as written.
    let p = pats(&["apps\\old-site"]);
    assert!(!is_ignored("/repo/apps/old-site/dist", &p));
    assert!(is_ignored("/repo/apps\\old-site/dist", &p));
    assert!(!is_ignored("/x/a\\b", &pats(&["b"])));
    // Several components: `\` reads as `/` in pattern and path.
    let q = pats(&["apps/old\\site"]);
    assert!(is_ignored("/repo/apps/old/site", &q));
    assert!(is_ignored("/repo/apps\\old\\site", &pats(&["old/site"])));
}

#[test]
fn any_pattern_suffices() {
    let p = pats(&["nothing-here", "proj"]);
    assert!(is_ignored("/home/proj/dist", &p));
}

#[test]
fn parent_and_file_name_follow_path_semantics() {
    assert_eq!(parent("/a/b"), Some("/a".to_string()));
    assert_eq!(parent("/a/b/"), Some("/a".to_string()));
    assert_eq!(parent("/a"), Some("/".to_string()));
    assert_eq!(parent("/"), None);
    assert_eq!(parent("a"), Some("".to_string()));
    assert_eq!(parent(""), None);
    assert_eq!(file_name("/a/b/"), Some("b".to_string()));
    assert_eq!(file_name("/a/b/."), Some("b".to_string()));
    assert_eq!(file_name("/a/.."), None);
    assert_eq!(file_name("/"), None);
}

#[test]
fn join_adds_one_separator_and_absolute_wins() {
    assert_eq!(join("/a", "b"), "/a/b");
    assert_eq!(join("/a/", "b"), "/a/b");
    assert_eq!(join("", "b"), "b");
    assert_eq!(join("/a", "/b"), "/b");
}

#[test]
fn components_drop_empty_and_current_dir_parts() {
    assert_eq!(components("/a/./b//c/"), pats(&["/", "a", "b", "c"]));
    assert_eq!(components("./x"), pats(&[".", "x"]));
    assert_eq!(components("a/../b"), pats(&["a", "..", "b"]));
}
