use nodewipe::model::{ArtifactKind, PackageManager, ScanOptions};
use nodewipe::scanner::{
    build_entry, classify_path, detect_package_manager, lockfile_probe_paths, marker_probe_paths, visit_dir,
    Visit,
};

fn s(v: &[&str]) -> Vec<String> {
    v.iter().map(|x| x.to_string()).collect()
}

#[test]
fn name_only_kinds_need_no_marker() {
    assert_eq!(classify_path("/p/node_modules", &[]), Some(ArtifactKind::NodeModules));
    assert_eq!(classify_path("/p/__pycache__", &[]), Some(ArtifactKind::PythonPycache));
    assert_eq!(classify_path("/p/.pytest_cache", &[]), Some(ArtifactKind::PythonPytestCache));
    assert_eq!(classify_path("/p/.mypy_cache", &[]), Some(ArtifactKind::PythonMypyCache));
    assert_eq!(classify_path("/p/.ruff_cache", &[]), Some(ArtifactKind::PythonRuffCache));
    assert_eq!(classify_path("/p/.next", &[]), Some(ArtifactKind::NextCache));
    assert_eq!(classify_path("/p/.turbo", &[]), Some(ArtifactKind::TurboCache));
}

#[test]
fn target_is_rust_or_maven_by_marker() {
    assert_eq!(classify_path("/p/target", &s(&["/p/Cargo.toml"])), Some(ArtifactKind::RustTarget));
    assert_eq!(classify_path("/p/target", &s(&["/p/pom.xml"])), Some(ArtifactKind::JavaMavenTarget));
    // Both markers: the first rule (Cargo) wins.
    assert_eq!(
        classify_path("/p/target", &s(&["/p/pom.xml", "/p/Cargo.toml"])),
        Some(ArtifactKind::RustTarget)
    );
    assert_eq!(classify_path("/p/target", &[]), None);
    // A marker in the wrong directory does not count.
    assert_eq!(classify_path("/p/target", &s(&["/p/target/Cargo.toml"])), None);
}

#[test]
fn venv_needs_pyvenv_cfg_inside() {
    assert_eq!(classify_path("/p/venv", &s(&["/p/venv/pyvenv.cfg"])), Some(ArtifactKind::PythonVenv));
    assert_eq!(classify_path("/p/.venv", &s(&["/p/.venv/pyvenv.cfg"])), Some(ArtifactKind::PythonVenv));
    assert_eq!(classify_path("/p/venv", &s(&["/p/pyvenv.cfg"])), None);
}

#[test]
fn build_and_dist_need_their_markers() {
    assert_eq!(classify_path("/p/build", &s(&["/p/build.gradle.kts"])), Some(ArtifactKind::JavaGradleBuild));
    assert_eq!(classify_path("/p/build", &s(&["/p/build.gradle"])), Some(ArtifactKind::JavaGradleBuild));
    assert_eq!(classify_path("/p/build", &s(&["/p/package.json"])), None);
    assert_eq!(classify_path("/p/dist", &s(&["/p/package.json"])), Some(ArtifactKind::GenericDist));
    assert_eq!(classify_path("/p/dist", &[]), None);
}

#[test]
fn unknown_names_and_nameless_paths_are_not_artifacts() {
    assert_eq!(classify_path("/p/src", &[]), None);
    assert_eq!(classify_path("/", &[]), None);
    assert_eq!(classify_path("/p/..", &[]), None);
}

#[test]
fn probe_paths_list_the_marker_files() {
    assert_eq!(marker_probe_paths("/p/target"), s(&["/p/Cargo.toml", "/p/pom.xml"]));
    assert_eq!(marker_probe_paths("/p/build"), s(&["/p/build.gradle", "/p/build.gradle.kts"]));
    assert_eq!(marker_probe_paths("/p/venv"), s(&["/p/venv/pyvenv.cfg"]));
    assert_eq!(marker_probe_paths("/p/dist"), s(&["/p/package.json"]));
    assert_eq!(marker_probe_paths("/p/node_modules"), s(&[]));
    assert_eq!(marker_probe_paths("/p/src"), s(&[]));
}

#[test]
fn walk_skips_excluded_and_ignored_directories() {
    let mut o = ScanOptions::default();
    assert_eq!(visit_dir(&o, "/x/.git", &[]), Visit::Skip);
    assert_eq!(visit_dir(&o, "/x/site-packages", &[]), Visit::Skip);
    o.ignore_patterns = s(&["old"]);
    assert_eq!(visit_dir(&o, "/x/old", &[]), Visit::Skip);
    assert_eq!(visit_dir(&o, "/x/old/node_modules", &[]), Visit::Skip);
}

#[test]
fn walk_reports_artifacts_without_descending() {
    let o = ScanOptions::default();
    assert_eq!(visit_dir(&o, "/x/node_modules", &[]), Visit::Report(ArtifactKind::NodeModules));
    assert_eq!(visit_dir(&o, "/x/src", &[]), Visit::Descend);
    assert_eq!(visit_dir(&o, "/x/target", &[]), Visit::Descend);
    assert_eq!(visit_dir(&o, ".", &[]), Visit::Descend);
}

#[test]
fn walk_skips_excluded_kinds() {
    let mut o = ScanOptions::default();
    o.exclude_kinds = vec![ArtifactKind::NodeModules];
    assert_eq!(visit_dir(&o, "/x/node_modules", &[]), Visit::Skip);
    assert_eq!(visit_dir(&o, "/x/__pycache__", &[]), Visit::Report(ArtifactKind::PythonPycache));
}

#[test]
fn package_manager_follows_lockfile_precedence() {
    assert_eq!(
        lockfile_probe_paths("/p/node_modules"),
        s(&["/p/pnpm-lock.yaml", "/p/yarn.lock", "/p/package-lock.json"])
    );
    assert_eq!(detect_package_manager("/p/node_modules", &s(&["/p/package-lock.json"])), PackageManager::Npm);
    assert_eq!(
        detect_package_manager("/p/node_modules", &s(&["/p/package-lock.json", "/p/yarn.lock"])),
        PackageManager::Yarn
    );
    assert_eq!(
        detect_package_manager("/p/node_modules", &s(&["/p/yarn.lock", "/p/pnpm-lock.yaml"])),
        PackageManager::Pnpm
    );
    assert_eq!(detect_package_manager("/p/node_modules", &[]), PackageManager::Unknown);
    assert_eq!(detect_package_manager("/", &[]), PackageManager::Unknown);
}

#[test]
fn entries_carry_size_and_package_manager() {
    let e = build_entry("/p/node_modules".to_string(), ArtifactKind::NodeModules, true, 4096, &s(&["/p/yarn.lock"]), Some(7));
    assert_eq!(e.path, "/p/node_modules");
    assert_eq!(e.size_bytes, 4096);
    assert_eq!(e.package_manager, Some(PackageManager::Yarn));
    assert_eq!(e.last_modified, Some(7));
    assert_eq!(e.workspace_root, None);

    let f = build_entry("/p/target".to_string(), ArtifactKind::RustTarget, false, 4096, &[], None);
    assert_eq!(f.size_bytes, 0);
    assert_eq!(f.package_manager, None);
}
