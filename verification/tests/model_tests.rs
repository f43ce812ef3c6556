use nodewipe::model::{ArtifactKind, ScanOptions};

#[test]
fn slug_round_trips_for_every_kind() {
    for k in ArtifactKind::all() {
        assert_eq!(ArtifactKind::from_slug(k.slug()), Some(k));
    }
}

#[test]
fn slugs_are_the_documented_ones() {
    let slugs: Vec<&str> = ArtifactKind::all().iter().map(|k| k.slug()).collect();
    assert_eq!(
        slugs,
        vec![
            "node_modules",
            "venv",
            "pycache",
            "pytest_cache",
            "mypy_cache",
            "ruff_cache",
            "rust_target",
            "maven_target",
            "gradle_build",
            "next_cache",
            "turbo_cache",
            "dist"
        ]
    );
}

#[test]
fn from_slug_rejects_unknown_names() {
    assert_eq!(ArtifactKind::from_slug("bogus"), None);
    assert_eq!(ArtifactKind::from_slug(""), None);
    assert_eq!(ArtifactKind::from_slug("Venv"), None);
    assert_eq!(ArtifactKind::from_slug(" venv"), None);
    assert_eq!(ArtifactKind::from_slug("__pycache__"), None);
}

#[test]
fn from_slug_finds_each_kind() {
    assert_eq!(ArtifactKind::from_slug("pycache"), Some(ArtifactKind::PythonPycache));
    assert_eq!(ArtifactKind::from_slug("rust_target"), Some(ArtifactKind::RustTarget));
    assert_eq!(ArtifactKind::from_slug("maven_target"), Some(ArtifactKind::JavaMavenTarget));
    assert_eq!(ArtifactKind::from_slug("dist"), Some(ArtifactKind::GenericDist));
}

#[test]
fn labels_are_human_readable() {
    assert_eq!(ArtifactKind::NodeModules.label(), "node_modules");
    assert_eq!(ArtifactKind::PythonVenv.label(), "Python venv");
    assert_eq!(ArtifactKind::RustTarget.label(), "Cargo target");
    assert_eq!(ArtifactKind::NextCache.label(), "Next.js cache");
    assert_eq!(ArtifactKind::GenericDist.label(), "dist/");
}

#[test]
fn only_venv_carries_a_risk_note() {
    for k in ArtifactKind::all() {
        assert_eq!(k.risk_note().is_some(), k == ArtifactKind::PythonVenv);
    }
    let note = ArtifactKind::PythonVenv.risk_note().unwrap();
    assert!(note.starts_with("This is a Python virtual environment, not just a cache."));
    assert!(note.ends_with("it will break the moment this is gone."));
}

#[test]
fn all_lists_twelve_kinds_in_ui_order() {
    let all = ArtifactKind::all();
    assert_eq!(all.len(), 12);
    assert_eq!(all[0], ArtifactKind::NodeModules);
    assert_eq!(all[11], ArtifactKind::GenericDist);
}

#[test]
fn default_scan_options() {
    let o = ScanOptions::default();
    assert_eq!(o.root, ".");
    assert!(!o.follow_symlinks);
    assert!(o.compute_sizes);
    assert!(o.exclude_kinds.is_empty());
    assert!(o.ignore_patterns.is_empty());
    assert_eq!(
        o.exclude_dirs,
        vec![
            ".git",
            "Trash",
            "$Recycle.Bin",
            ".Trash",
            ".npm",
            ".bun",
            ".pnpm-store",
            ".yarn",
            ".cargo",
            ".rustup",
            "site-packages"
        ]
    );
}
