use nodewipe::deleter::{
    archive_entry_name, archive_path_for, confirm_restore, first_component, plan_delete, restore_dest_dir,
    restore_target, DeleteError, DeleteMode, RestoreError,
};
use nodewipe::paths::{file_name, parent};

fn s(v: &[&str]) -> Vec<String> {
    v.iter().map(|x| x.to_string()).collect()
}

#[test]
fn missing_paths_are_refused_first() {
    assert_eq!(plan_delete("/p/node_modules", false, &[], DeleteMode::Trash).err(), Some(DeleteError::NotFound));
    assert_eq!(plan_delete("/p/src", false, &[], DeleteMode::Trash).err(), Some(DeleteError::NotFound));
}

#[test]
fn only_confirmed_artifacts_may_be_deleted() {
    assert_eq!(plan_delete("/p/src", true, &[], DeleteMode::Permanent).err(), Some(DeleteError::NotAnArtifact));
    assert_eq!(plan_delete("/", true, &[], DeleteMode::Permanent).err(), Some(DeleteError::NotAnArtifact));
    assert_eq!(plan_delete("/home/me", true, &[], DeleteMode::Trash).err(), Some(DeleteError::NotAnArtifact));
    for name in ["node_modules", "__pycache__", ".pytest_cache", ".mypy_cache", ".ruff_cache", ".next", ".turbo"] {
        let path = format!("/p/{name}");
        assert!(plan_delete(&path, true, &[], DeleteMode::Trash).is_ok(), "{name}");
    }
}

#[test]
fn a_folder_that_only_shares_an_artifact_name_is_refused() {
    for name in ["target", "build", "dist", "venv", ".venv"] {
        let path = format!("/p/{name}");
        assert_eq!(plan_delete(&path, true, &[], DeleteMode::Trash).err(), Some(DeleteError::NotAnArtifact), "{name}");
    }
    // A marker in the wrong place does not count either.
    assert_eq!(
        plan_delete("/p/target", true, &s(&["/p/target/Cargo.toml"]), DeleteMode::Trash).err(),
        Some(DeleteError::NotAnArtifact)
    );
}

#[test]
fn marker_files_confirm_ambiguous_names() {
    assert!(plan_delete("/p/target", true, &s(&["/p/Cargo.toml"]), DeleteMode::Trash).is_ok());
    assert!(plan_delete("/p/target", true, &s(&["/p/pom.xml"]), DeleteMode::Trash).is_ok());
    assert!(plan_delete("/p/build", true, &s(&["/p/build.gradle"]), DeleteMode::Trash).is_ok());
    assert!(plan_delete("/p/dist", true, &s(&["/p/package.json"]), DeleteMode::Trash).is_ok());
    assert!(plan_delete("/p/.venv", true, &s(&["/p/.venv/pyvenv.cfg"]), DeleteMode::Trash).is_ok());
}

#[test]
fn a_plan_keeps_path_and_mode() {
    let plan = plan_delete("/p/node_modules", true, &[], DeleteMode::Trash).unwrap();
    assert_eq!(plan.path, "/p/node_modules");
    assert_eq!(plan.mode, DeleteMode::Trash);
    assert_eq!(plan.archive_path, None);
    let r = plan.finish(123);
    assert_eq!(r.freed_bytes, 123);
    assert_eq!(r.path, "/p/node_modules");
    assert_eq!(r.mode, DeleteMode::Trash);
}

#[test]
fn archive_plans_name_the_backup_next_to_the_artifact() {
    let plan = plan_delete("/home/me/shop/node_modules", true, &[], DeleteMode::Archive).unwrap();
    assert_eq!(plan.archive_path, Some("/home/me/shop/shop-node_modules-backup.tar.gz".to_string()));
}

#[test]
fn archive_names_drop_leading_dots() {
    assert_eq!(archive_path_for("/home/me/app/.venv"), "/home/me/app/app-venv-backup.tar.gz");
    assert_eq!(archive_path_for("/home/me/app/.next"), "/home/me/app/app-next-backup.tar.gz");
    assert_eq!(archive_path_for("rel/dist"), "rel/rel-dist-backup.tar.gz");
}

#[test]
fn archive_names_fall_back_to_placeholders() {
    assert_eq!(archive_path_for("node_modules"), "project-node_modules-backup.tar.gz");
    assert_eq!(archive_path_for("/"), "/project-artifact-backup.tar.gz");
}

#[test]
fn archive_entries_are_named_after_the_artifact() {
    assert_eq!(archive_entry_name("/home/me/app/.venv"), ".venv");
    assert_eq!(archive_entry_name("/"), "artifact");
}

#[test]
fn restore_needs_an_existing_archive_with_a_parent() {
    assert_eq!(restore_dest_dir("/p/p-venv-backup.tar.gz", false), Err(RestoreError::ArchiveNotFound));
    assert_eq!(restore_dest_dir("/p/p-venv-backup.tar.gz", true), Ok("/p".to_string()));
    assert_eq!(restore_dest_dir("/", true), Err(RestoreError::NoParentDir));
}

#[test]
fn restored_name_is_the_first_component_of_the_entries() {
    assert_eq!(first_component("node_modules/left-pad/index.js"), Some("node_modules".to_string()));
    assert_eq!(first_component("./node_modules"), Some(".".to_string()));
    assert_eq!(first_component(""), None);
    assert_eq!(restore_target("/p", Some("node_modules".to_string())), Ok("/p/node_modules".to_string()));
    assert_eq!(restore_target("/p", None), Err(RestoreError::EmptyArchive));
}

#[test]
fn restore_refuses_to_overwrite() {
    assert_eq!(confirm_restore("/p/node_modules".to_string(), true), Err(RestoreError::AlreadyExists));
    assert_eq!(confirm_restore("/p/node_modules".to_string(), false), Ok("/p/node_modules".to_string()));
}

#[test]
fn archive_round_trip_restores_to_where_it_was() {
    for artifact in ["/home/me/app/node_modules", "/home/me/app/.venv", "rel/dist", "/srv/site/build/"] {
        let archive = archive_path_for(artifact);
        let entry = archive_entry_name(artifact);
        let dest = restore_dest_dir(&archive, true).unwrap();
        assert_eq!(Some(dest.clone()), parent(artifact));
        let name = first_component(&format!("{entry}/some/file"));
        assert_eq!(name, file_name(artifact));
        let target = restore_target(&dest, name).unwrap();
        assert_eq!(Some(target.clone()), Some(nodewipe::paths::join(&parent(artifact).unwrap(), &file_name(artifact).unwrap())));
        assert_eq!(nodewipe::paths::components(&target), nodewipe::paths::components(artifact));
    }
}
