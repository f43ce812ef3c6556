//! Deleting artifacts (to the OS trash, archived, or permanently) and
//! restoring archived ones. The file-system work is the caller's; this
//! module decides whether a deletion or restore may go ahead and computes
//! the paths involved.
use vstd::prelude::*;
use crate::paths::{components_exec, file_name, file_name_of, join, join_of, parent, parent_of, path_components, string_views, views};
use crate::text::{chars_of, push_all, string_of};
use crate::scanner::{classification, classify_path};

verus! {

broadcast use vstd::string::group_string_axioms;

/// How an artifact is deleted.
#[derive(Debug, Clone, Copy, PartialEq, Eq, Structural)]
pub enum DeleteMode {
    /// Moves to the OS trash/recycle bin: recoverable.
    Trash,
    /// Compresses to a `.tar.gz` next to the directory before permanently
    /// removing the directory itself.
    Archive,
    /// Immediate, unrecoverable removal.
    Permanent,
}

/// What a completed deletion reports.
#[derive(Debug)]
pub struct DeleteResult {
    pub path: String,
    pub mode: DeleteMode,
    pub archive_path: Option<String>,
    pub freed_bytes: u64,
}

/// Why a deletion is refused.
#[derive(Debug, Clone, Copy, PartialEq, Eq, Structural)]
pub enum DeleteError {
    /// The path does not exist.
    NotFound,
    /// The directory's name is not one a known artifact kind can have.
    NotAnArtifact,
}

/// A deletion that may go ahead: what to remove, how, and (for `Archive`)
/// where the archive goes.
#[derive(Debug)]
pub struct DeletePlan {
    pub path: String,
    pub mode: DeleteMode,
    pub archive_path: Option<String>,
}

/// Every directory name a known artifact kind can appear as. Deletion
/// accepts only what the scanner classifies, and every such name is on this
/// list (see `law_classified_is_deletable`).
pub open spec fn deletable_names() -> Seq<Seq<char>> {
    seq![
        "node_modules"@,
        "venv"@,
        ".venv"@,
        "__pycache__"@,
        ".pytest_cache"@,
        ".mypy_cache"@,
        ".ruff_cache"@,
        "target"@,
        "build"@,
        ".next"@,
        ".turbo"@,
        "dist"@,
    ]
}

/// Whether the file name of `path` is on the allowlist (a path without a
/// file name counts as the empty name, which is not).
pub open spec fn is_deletable(path: Seq<char>) -> bool {
    match file_name_of(path) {
        Some(n) => deletable_names().contains(n),
        None => deletable_names().contains(Seq::<char>::empty()),
    }
}

/// `s` without leading `.` characters (`trim_start_matches('.')`).
pub open spec fn trim_leading_dots(s: Seq<char>) -> Seq<char>
    decreases s.len(),
{
    if s.len() > 0 && s[0] == '.' {
        trim_leading_dots(s.drop_first())
    } else {
        s
    }
}

/// The directory that holds `path`'s archive: its parent, or the path itself
/// when it has none.
pub open spec fn archive_dir_of(path: Seq<char>) -> Seq<char> {
    match parent_of(path) {
        Some(q) => q,
        None => path,
    }
}

/// The file name of the archive of `path`:
/// `{project}-{artifact}-backup.tar.gz`, where `project` is the name of the
/// directory holding it (`project` if none) and `artifact` its own name
/// (`artifact` if none) without leading dots.
pub open spec fn archive_name_of(path: Seq<char>) -> Seq<char> {
    let dir = archive_dir_of(path);
    let artifact = trim_leading_dots(
        match file_name_of(path) {
            Some(n) => n,
            None => "artifact"@,
        },
    );
    let project = match file_name_of(dir) {
        Some(n) => n,
        None => "project"@,
    };
    project + "-"@ + artifact + "-backup.tar.gz"@
}

/// Where the archive of `path` is written: next to it.
pub open spec fn archive_path_of(path: Seq<char>) -> Seq<char> {
    join_of(archive_dir_of(path), archive_name_of(path))
}

/// The name under which the directory is stored inside its archive.
pub open spec fn archive_entry_name_of(path: Seq<char>) -> Seq<char> {
    match file_name_of(path) {
        Some(n) => n,
        None => "artifact"@,
    }
}

/// Decides whether `path` may be deleted: refused when it does not exist,
/// and unless it is a directory the scanner itself would report, that is,
/// its name is one a known artifact kind has and that kind's marker file is
/// there (`present` lists the files among `marker_probe_paths(path)` that
/// exist). A folder that merely shares an artifact's name, or a typo'd path,
/// is never removed. For `Archive`, the plan names the archive file, next to
/// the directory.
pub fn plan_delete(path: &str, exists: bool, present: &[String], mode: DeleteMode) -> (r: Result<
    DeletePlan,
    DeleteError,
>)
    ensures
        !exists ==> r == Err::<DeletePlan, DeleteError>(DeleteError::NotFound),
        exists && classification(path@, string_views(present@)) is None ==> r == Err::<
            DeletePlan,
            DeleteError,
        >(DeleteError::NotAnArtifact),
        exists && classification(path@, string_views(present@)) is Some ==> (r matches Ok(plan)
            && plan.path@ == path@ && plan.mode == mode && match plan.archive_path {
            Some(a) => mode == DeleteMode::Archive && a@ == archive_path_of(path@),
            None => mode != DeleteMode::Archive,
        }),
{
    if !exists {
        return Err(DeleteError::NotFound);
    }
    if classify_path(path, present).is_none() {
        return Err(DeleteError::NotAnArtifact);
    }
    let archive_path = match mode {
        DeleteMode::Archive => Some(archive_path_for(path)),
        _ => None,
    };
    Ok(DeletePlan { path: path.to_string(), mode, archive_path })
}

impl DeletePlan {
    /// The report of a deletion carried out per this plan: the `size_bytes`
    /// measured before deleting count as freed.
    pub fn finish(self, size_bytes: u64) -> (r: DeleteResult)
        ensures
            r.path == self.path,
            r.mode == self.mode,
            r.archive_path == self.archive_path,
            r.freed_bytes == size_bytes,
    {
        DeleteResult {
            path: self.path,
            mode: self.mode,
            archive_path: self.archive_path,
            freed_bytes: size_bytes,
        }
    }
}

fn trim_leading_dots_exec(v: &Vec<char>) -> (r: Vec<char>)
    ensures
        r@ == trim_leading_dots(v@),
{
    let mut i: usize = 0;
    assert(v@.skip(0) =~= v@);
    while i < v.len() && v[i] == '.'
        invariant
            i <= v@.len(),
            trim_leading_dots(v@) == trim_leading_dots(v@.skip(i as int)),
        decreases v@.len() - i,
    {
        assert(v@.skip(i as int).drop_first() =~= v@.skip(i + 1));
        i = i + 1;
    }
    let mut r: Vec<char> = Vec::new();
    let mut k = i;
    while k < v.len()
        invariant
            i <= k <= v@.len(),
            r@ == v@.subrange(i as int, k as int),
        decreases v@.len() - k,
    {
        r.push(v[k]);
        assert(r@ =~= v@.subrange(i as int, k + 1));
        k = k + 1;
    }
    assert(r@ =~= v@.skip(i as int));
    r
}

/// Where `DeleteMode::Archive` writes the archive of `artifact_path`: a file
/// `{project}-{artifact}-backup.tar.gz` in the directory that holds it.
pub fn archive_path_for(artifact_path: &str) -> (r: String)
    ensures
        r@ == archive_path_of(artifact_path@),
{
    proof {
        reveal_strlit("artifact");
        reveal_strlit("project");
        reveal_strlit("-");
        reveal_strlit("-backup.tar.gz");
    }
    let v = chars_of(artifact_path);
    let dir = match crate::paths::parent_chars(&v) {
        Some(q) => q,
        None => chars_of(artifact_path),
    };
    assert(dir@ == archive_dir_of(artifact_path@));
    let artifact_name = match crate::paths::file_name_chars(&v) {
        Some(n) => n,
        None => chars_of("artifact"),
    };
    let artifact = trim_leading_dots_exec(&artifact_name);
    let project = match crate::paths::file_name_chars(&dir) {
        Some(n) => n,
        None => chars_of("project"),
    };
    let mut name: Vec<char> = Vec::new();
    push_all(&mut name, &project);
    name.push('-');
    push_all(&mut name, &artifact);
    push_all(&mut name, &chars_of("-backup.tar.gz"));
    assert(name@ =~= archive_name_of(artifact_path@));
    string_of(&crate::paths::join_chars(&dir, &name))
}

/// The name under which `DeleteMode::Archive` stores the directory inside
/// its archive: its file name, or `artifact` when it has none.
pub fn archive_entry_name(artifact_path: &str) -> (r: String)
    ensures
        r@ == archive_entry_name_of(artifact_path@),
{
    match file_name(artifact_path) {
        Some(n) => n,
        None => "artifact".to_string(),
    }
}

/// Why a restore is refused.
#[derive(Debug, Clone, Copy, PartialEq, Eq, Structural)]
pub enum RestoreError {
    /// The archive file does not exist.
    ArchiveNotFound,
    /// The archive path has no parent directory to restore into.
    NoParentDir,
    /// The archive holds no entry to name the restored directory by.
    EmptyArchive,
    /// The directory to restore already exists; restoring on top of it
    /// could merge stale and fresh files.
    AlreadyExists,
}

/// The directory an archive is restored into: the archive's own directory.
pub fn restore_dest_dir(archive_path: &str, exists: bool) -> (r: Result<String, RestoreError>)
    ensures
        !exists ==> r == Err::<String, RestoreError>(RestoreError::ArchiveNotFound),
        exists && parent_of(archive_path@) is None ==> r == Err::<String, RestoreError>(
            RestoreError::NoParentDir,
        ),
        exists && parent_of(archive_path@) is Some ==> (r matches Ok(d) && Some(d@) == parent_of(
            archive_path@,
        )),
{
    if !exists {
        return Err(RestoreError::ArchiveNotFound);
    }
    match parent(archive_path) {
        Some(d) => Ok(d),
        None => Err(RestoreError::NoParentDir),
    }
}

/// The first component of a path, as text.
pub open spec fn first_component_of(p: Seq<char>) -> Option<Seq<char>> {
    if path_components(p).len() > 0 {
        Some(path_components(p)[0])
    } else {
        None
    }
}

/// The first component of an archive entry's path; the first entry that has
/// one names the restored directory.
pub fn first_component(entry_path: &str) -> (r: Option<String>)
    ensures
        match r {
            Some(c) => first_component_of(entry_path@) == Some(c@),
            None => first_component_of(entry_path@) is None,
        },
{
    let v = chars_of(entry_path);
    let cs = components_exec(&v);
    if cs.len() > 0 {
        Some(string_of(&cs[0]))
    } else {
        None
    }
}

/// The path an archive restores to: the restored name joined to the
/// archive's directory; refused when the archive had no named entry.
pub fn restore_target(dest_dir: &str, restored_name: Option<String>) -> (r: Result<String, RestoreError>)
    ensures
        match restored_name {
            Some(n) => (r matches Ok(t) && t@ == join_of(dest_dir@, n@)),
            None => r == Err::<String, RestoreError>(RestoreError::EmptyArchive),
        },
{
    match restored_name {
        Some(n) => Ok(join(dest_dir, n.as_str())),
        None => Err(RestoreError::EmptyArchive),
    }
}

/// Refuses to restore over a directory that already exists.
pub fn confirm_restore(target: String, target_exists: bool) -> (r: Result<String, RestoreError>)
    ensures
        target_exists ==> r == Err::<String, RestoreError>(RestoreError::AlreadyExists),
        !target_exists ==> r == Ok::<String, RestoreError>(target),
{
    if target_exists {
        Err(RestoreError::AlreadyExists)
    } else {
        Ok(target)
    }
}

} // verus!
