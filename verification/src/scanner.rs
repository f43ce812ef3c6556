//! Artifact classification and the decisions of the directory walk.
//!
//! A directory is an artifact when its name is one of the known rule names
//! and the rule's marker is confirmed: by name alone, by a marker file in the
//! parent directory (`target` next to `Cargo.toml`), or by a marker file
//! inside the directory (`pyvenv.cfg` in a venv). Rules are tried in order;
//! the first confirmed one wins. Which files exist is observed by the caller:
//! [`marker_probe_paths`] lists the files whose existence matters, and the
//! classification takes the list of those that exist.
use vstd::prelude::*;
use crate::model::{ArtifactKind, Entry, PackageManager, ScanOptions};
use crate::paths::{file_name, file_name_of, join, join_of, parent, parent_of, string_views};
use crate::ignorefile::{ignored_by, is_ignored};
use crate::text::{chars_of, chars_eq};

verus! {

broadcast use vstd::string::group_string_axioms;

/// How a directory name is confirmed to be the artifact kind it looks like.
pub enum Marker {
    /// The name alone is enough (e.g. `node_modules`, `__pycache__`).
    NameOnly,
    /// At least one of these files must exist in the parent directory.
    ParentHasAny(Vec<&'static str>),
    /// At least one of these files must exist inside the directory itself.
    SelfHasAny(Vec<&'static str>),
}

/// One known disposable-artifact pattern.
pub struct Rule {
    pub name: &'static str,
    pub kind: ArtifactKind,
    pub marker: Marker,
}

/// A marker as text.
pub enum MarkerSpec {
    NameOnly,
    ParentHasAny(Seq<Seq<char>>),
    SelfHasAny(Seq<Seq<char>>),
}

/// A rule as text.
pub struct RuleSpec {
    pub name: Seq<char>,
    pub kind: ArtifactKind,
    pub marker: MarkerSpec,
}

/// The text of a list of names.
pub open spec fn str_views(v: Seq<&'static str>) -> Seq<Seq<char>> {
    v.map_values(|s: &'static str| s@)
}

/// The text of a rule.
pub open spec fn rule_view(r: Rule) -> RuleSpec {
    RuleSpec {
        name: r.name@,
        kind: r.kind,
        marker: match r.marker {
            Marker::NameOnly => MarkerSpec::NameOnly,
            Marker::ParentHasAny(fs) => MarkerSpec::ParentHasAny(str_views(fs@)),
            Marker::SelfHasAny(fs) => MarkerSpec::SelfHasAny(str_views(fs@)),
        },
    }
}

/// The full set of known disposable-artifact patterns, in the order they are
/// tried. Order matters where two rules share a name (`target` for Rust and
/// for Maven): the first rule whose marker is confirmed wins.
pub open spec fn artifact_rules() -> Seq<RuleSpec> {
    seq![
        RuleSpec { name: "node_modules"@, kind: ArtifactKind::NodeModules, marker: MarkerSpec::NameOnly },
        RuleSpec { name: "venv"@, kind: ArtifactKind::PythonVenv, marker: MarkerSpec::SelfHasAny(seq!["pyvenv.cfg"@]) },
        RuleSpec { name: ".venv"@, kind: ArtifactKind::PythonVenv, marker: MarkerSpec::SelfHasAny(seq!["pyvenv.cfg"@]) },
        RuleSpec { name: "__pycache__"@, kind: ArtifactKind::PythonPycache, marker: MarkerSpec::NameOnly },
        RuleSpec { name: ".pytest_cache"@, kind: ArtifactKind::PythonPytestCache, marker: MarkerSpec::NameOnly },
        RuleSpec { name: ".mypy_cache"@, kind: ArtifactKind::PythonMypyCache, marker: MarkerSpec::NameOnly },
        RuleSpec { name: ".ruff_cache"@, kind: ArtifactKind::PythonRuffCache, marker: MarkerSpec::NameOnly },
        RuleSpec { name: "target"@, kind: ArtifactKind::RustTarget, marker: MarkerSpec::ParentHasAny(seq!["Cargo.toml"@]) },
        RuleSpec { name: "target"@, kind: ArtifactKind::JavaMavenTarget, marker: MarkerSpec::ParentHasAny(seq!["pom.xml"@]) },
        RuleSpec { name: "build"@, kind: ArtifactKind::JavaGradleBuild, marker: MarkerSpec::ParentHasAny(seq!["build.gradle"@, "build.gradle.kts"@]) },
        RuleSpec { name: ".next"@, kind: ArtifactKind::NextCache, marker: MarkerSpec::NameOnly },
        RuleSpec { name: ".turbo"@, kind: ArtifactKind::TurboCache, marker: MarkerSpec::NameOnly },
        RuleSpec { name: "dist"@, kind: ArtifactKind::GenericDist, marker: MarkerSpec::ParentHasAny(seq!["package.json"@]) },
    ]
}

/// The rules, as values.
pub fn rules() -> (r: Vec<Rule>)
    ensures
        r@.map_values(|x: Rule| rule_view(x)) == artifact_rules(),
{
    let r = vec![
        Rule { name: "node_modules", kind: ArtifactKind::NodeModules, marker: Marker::NameOnly },
        Rule { name: "venv", kind: ArtifactKind::PythonVenv, marker: Marker::SelfHasAny(vec!["pyvenv.cfg"]) },
        Rule { name: ".venv", kind: ArtifactKind::PythonVenv, marker: Marker::SelfHasAny(vec!["pyvenv.cfg"]) },
        Rule { name: "__pycache__", kind: ArtifactKind::PythonPycache, marker: Marker::NameOnly },
        Rule { name: ".pytest_cache", kind: ArtifactKind::PythonPytestCache, marker: Marker::NameOnly },
        Rule { name: ".mypy_cache", kind: ArtifactKind::PythonMypyCache, marker: Marker::NameOnly },
        Rule { name: ".ruff_cache", kind: ArtifactKind::PythonRuffCache, marker: Marker::NameOnly },
        Rule { name: "target", kind: ArtifactKind::RustTarget, marker: Marker::ParentHasAny(vec!["Cargo.toml"]) },
        Rule { name: "target", kind: ArtifactKind::JavaMavenTarget, marker: Marker::ParentHasAny(vec!["pom.xml"]) },
        Rule { name: "build", kind: ArtifactKind::JavaGradleBuild, marker: Marker::ParentHasAny(vec!["build.gradle", "build.gradle.kts"]) },
        Rule { name: ".next", kind: ArtifactKind::NextCache, marker: Marker::NameOnly },
        Rule { name: ".turbo", kind: ArtifactKind::TurboCache, marker: Marker::NameOnly },
        Rule { name: "dist", kind: ArtifactKind::GenericDist, marker: Marker::ParentHasAny(vec!["package.json"]) },
    ];
    assert(r@.map_values(|x: Rule| rule_view(x)) =~= artifact_rules()) by {
        assert forall|i: int| 0 <= i < r@.len() implies rule_view(r@[i]) == artifact_rules()[i] by {
            match r@[i].marker {
                Marker::ParentHasAny(fs) => {
                    assert(str_views(fs@) =~= artifact_rules()[i].marker->ParentHasAny_0);
                },
                Marker::SelfHasAny(fs) => {
                    assert(str_views(fs@) =~= artifact_rules()[i].marker->SelfHasAny_0);
                },
                _ => {},
            }
        }
    }
    r
}

/// Some file `dir/f`, for `f` in `files`, is among the existing files.
pub open spec fn some_present(dir: Seq<char>, files: Seq<Seq<char>>, present: Seq<Seq<char>>) -> bool {
    exists|i: int| 0 <= i < files.len() && present.contains(join_of(dir, #[trigger] files[i]))
}

/// Whether `rule` confirms `path`, given the files that exist.
pub open spec fn rule_matches(rule: RuleSpec, path: Seq<char>, present: Seq<Seq<char>>) -> bool {
    &&& file_name_of(path) == Some(rule.name)
    &&& match rule.marker {
        MarkerSpec::NameOnly => true,
        MarkerSpec::ParentHasAny(files) => match parent_of(path) {
            Some(p) => some_present(p, files, present),
            None => false,
        },
        MarkerSpec::SelfHasAny(files) => some_present(path, files, present),
    }
}

/// The kind of the first rule from `i` on that confirms `path`.
pub open spec fn classify_from(i: int, path: Seq<char>, present: Seq<Seq<char>>) -> Option<ArtifactKind>
    decreases artifact_rules().len() - i,
{
    if i < 0 || i >= artifact_rules().len() {
        None
    } else if rule_matches(artifact_rules()[i], path, present) {
        Some(artifact_rules()[i].kind)
    } else {
        classify_from(i + 1, path, present)
    }
}

/// The kind `path` is classified as, given the files that exist.
pub open spec fn classification(path: Seq<char>, present: Seq<Seq<char>>) -> Option<ArtifactKind> {
    classify_from(0, path, present)
}

fn any_present(dir: &Vec<char>, files: &Vec<&'static str>, present: &[String]) -> (r: bool)
    ensures
        r == some_present(dir@, str_views(files@), string_views(present@)),
{
    let mut i: usize = 0;
    while i < files.len()
        invariant
            i <= files@.len(),
            forall|k: int|
                0 <= k < i ==> !string_views(present@).contains(
                    join_of(dir@, #[trigger] str_views(files@)[k]),
                ),
        decreases files@.len() - i,
    {
        let f = chars_of(files[i]);
        let target = crate::paths::join_chars(dir, &f);
        let mut k: usize = 0;
        while k < present.len()
            invariant
                k <= present@.len(),
                i < files@.len(),
                target@ == join_of(dir@, str_views(files@)[i as int]),
                forall|m: int| 0 <= m < k ==> string_views(present@)[m] != target@,
            decreases present@.len() - k,
        {
            let pk = chars_of(present[k].as_str());
            if chars_eq(&pk, &target) {
                assert(string_views(present@)[k as int] == target@);
                assert(string_views(present@).contains(join_of(dir@, str_views(files@)[i as int])));
                assert(some_present(dir@, str_views(files@), string_views(present@)));
                return true;
            }
            k = k + 1;
        }
        i = i + 1;
    }
    false
}

/// Classifies `path` by name and marker files: the kind of the first rule
/// whose name is the path's file name and whose marker is confirmed, where a
/// marker file counts as existing when its path (the marker name joined to
/// the parent directory, or to `path` itself) is in `present`.
pub fn classify_path(path: &str, present: &[String]) -> (r: Option<ArtifactKind>)
    ensures
        r == classification(path@, string_views(present@)),
{
    let v = chars_of(path);
    let name = match crate::paths::file_name_chars(&v) {
        Some(n) => n,
        None => {
            proof {
                lemma_no_name_no_kind(0, path@, string_views(present@));
            }
            return None;
        },
    };
    let parent_v = crate::paths::parent_chars(&v);
    let rs = rules();
    let mut i: usize = 0;
    while i < rs.len()
        invariant
            i <= rs@.len(),
            rs@.map_values(|x: Rule| rule_view(x)) == artifact_rules(),
            v@ == path@,
            file_name_of(path@) == Some(name@),
            match parent_v {
                Some(q) => parent_of(path@) == Some(q@),
                None => parent_of(path@) is None,
            },
            classification(path@, string_views(present@)) == classify_from(
                i as int,
                path@,
                string_views(present@),
            ),
        decreases rs@.len() - i,
    {
        let rule = &rs[i];
        assert(rule_view(*rule) == artifact_rules()[i as int]);
        let rn = chars_of(rule.name);
        let ok = if chars_eq(&rn, &name) {
            match &rule.marker {
                Marker::NameOnly => true,
                Marker::ParentHasAny(files) => match &parent_v {
                    Some(p) => any_present(p, files, present),
                    None => false,
                },
                Marker::SelfHasAny(files) => any_present(&v, files, present),
            }
        } else {
            false
        };
        assert(ok == rule_matches(artifact_rules()[i as int], path@, string_views(present@)));
        if ok {
            return Some(rule.kind);
        }
        i = i + 1;
    }
    None
}

proof fn lemma_no_name_no_kind(i: int, path: Seq<char>, present: Seq<Seq<char>>)
    requires
        file_name_of(path) is None,
    ensures
        classify_from(i, path, present) is None,
    decreases artifact_rules().len() - i,
{
    if 0 <= i < artifact_rules().len() {
        lemma_no_name_no_kind(i + 1, path, present);
    }
}

/// The files a marker looks for, for the directory `dir`.
pub open spec fn marker_probes(dir: Seq<char>, m: MarkerSpec) -> Seq<Seq<char>> {
    match m {
        MarkerSpec::NameOnly => seq![],
        MarkerSpec::ParentHasAny(files) => match parent_of(dir) {
            Some(p) => files.map_values(|f: Seq<char>| join_of(p, f)),
            None => seq![],
        },
        MarkerSpec::SelfHasAny(files) => files.map_values(|f: Seq<char>| join_of(dir, f)),
    }
}

/// The files looked for by the first `n` rules, for the directory `dir`.
pub open spec fn probes_upto(dir: Seq<char>, n: int) -> Seq<Seq<char>>
    decreases n,
{
    if n <= 0 || n > artifact_rules().len() {
        seq![]
    } else {
        let prev = probes_upto(dir, n - 1);
        let r = artifact_rules()[n - 1];
        if file_name_of(dir) == Some(r.name) {
            prev + marker_probes(dir, r.marker)
        } else {
            prev
        }
    }
}

/// Every file whose existence can decide how `dir` is classified.
pub open spec fn probe_list(dir: Seq<char>) -> Seq<Seq<char>> {
    probes_upto(dir, artifact_rules().len() as int)
}

fn push_probes(out: &mut Vec<String>, base: &Vec<char>, files: &Vec<&'static str>)
    ensures
        string_views(final(out)@) == string_views(old(out)@) + str_views(files@).map_values(
            |f: Seq<char>| join_of(base@, f),
        ),
{
    let ghost start = string_views(out@);
    let ghost fs = str_views(files@).map_values(|f: Seq<char>| join_of(base@, f));
    let mut k: usize = 0;
    while k < files.len()
        invariant
            k <= files@.len(),
            fs == str_views(files@).map_values(|f: Seq<char>| join_of(base@, f)),
            string_views(out@) == start + fs.take(k as int),
        decreases files@.len() - k,
    {
        let f = chars_of(files[k]);
        let s = crate::text::string_of(&crate::paths::join_chars(base, &f));
        let ghost prev = string_views(out@);
        out.push(s);
        assert(string_views(out@) =~= prev.push(s@));
        assert(fs.take(k + 1) =~= fs.take(k as int).push(fs[k as int]));
        k = k + 1;
    }
    assert(fs.take(files@.len() as int) =~= fs);
}

/// The files whose existence decides how `path` is classified: every marker
/// file of every rule named like `path`, joined where that rule looks.
pub fn marker_probe_paths(path: &str) -> (r: Vec<String>)
    ensures
        string_views(r@) == probe_list(path@),
{
    let v = chars_of(path);
    let mut out: Vec<String> = Vec::new();
    let name_v = crate::paths::file_name_chars(&v);
    let parent_v = crate::paths::parent_chars(&v);
    let rs = rules();
    let mut i: usize = 0;
    assert(string_views(out@) =~= probes_upto(path@, 0));
    while i < rs.len()
        invariant
            i <= rs@.len(),
            rs@.map_values(|x: Rule| rule_view(x)) == artifact_rules(),
            v@ == path@,
            match name_v {
                Some(n) => file_name_of(path@) == Some(n@),
                None => file_name_of(path@) is None,
            },
            match parent_v {
                Some(q) => parent_of(path@) == Some(q@),
                None => parent_of(path@) is None,
            },
            string_views(out@) == probes_upto(path@, i as int),
        decreases rs@.len() - i,
    {
        let rule = &rs[i];
        assert(rule_view(*rule) == artifact_rules()[i as int]);
        let rn = chars_of(rule.name);
        let named = match &name_v {
            Some(n) => chars_eq(&rn, n),
            None => false,
        };
        let ghost before = string_views(out@);
        if named {
            match &rule.marker {
                Marker::NameOnly => {
                    assert(before + seq![] =~= before);
                },
                Marker::ParentHasAny(files) => match &parent_v {
                    Some(p) => push_probes(&mut out, p, files),
                    None => {
                        assert(before + seq![] =~= before);
                    },
                },
                Marker::SelfHasAny(files) => push_probes(&mut out, &v, files),
            }
        }
        i = i + 1;
    }
    out
}

/// Whether `list` holds the text `x`.
pub fn list_contains(list: &[String], x: &Vec<char>) -> (r: bool)
    ensures
        r == string_views(list@).contains(x@),
{
    let mut k: usize = 0;
    while k < list.len()
        invariant
            k <= list@.len(),
            forall|m: int| 0 <= m < k ==> string_views(list@)[m] != x@,
        decreases list@.len() - k,
    {
        let lk = chars_of(list[k].as_str());
        if chars_eq(&lk, x) {
            assert(string_views(list@)[k as int] == x@);
            return true;
        }
        k = k + 1;
    }
    false
}

fn kind_listed(kinds: &Vec<ArtifactKind>, k: ArtifactKind) -> (r: bool)
    ensures
        r == kinds@.contains(k),
{
    let mut i: usize = 0;
    while i < kinds.len()
        invariant
            i <= kinds@.len(),
            forall|m: int| 0 <= m < i ==> kinds@[m] != k,
        decreases kinds@.len() - i,
    {
        if kinds[i] == k {
            assert(kinds@[i as int] == k);
            return true;
        }
        i = i + 1;
    }
    false
}

/// What the walk does with a directory it reaches.
#[derive(Debug, Clone, Copy, PartialEq, Eq, Structural)]
pub enum Visit {
    /// Neither report it nor descend into it.
    Skip,
    /// Report it as an artifact of this kind, and do not descend into it.
    Report(ArtifactKind),
    /// Not an artifact: descend into it.
    Descend,
}

/// The name the walk sees for a directory: its file name, or the whole path
/// when it has none (the scan root `.` or `/`).
pub open spec fn walk_name(path: Seq<char>) -> Seq<char> {
    match file_name_of(path) {
        Some(n) => n,
        None => path,
    }
}

/// The walk's decision for the directory `path`, given the files that exist.
/// An excluded or ignored directory is skipped with everything under it; an
/// artifact is reported unless its kind is excluded, and is never descended
/// into, so nothing inside an artifact is reported on its own; any other
/// directory is descended into, so skipping one never hides its siblings.
pub open spec fn visit_of(opts: ScanOptions, path: Seq<char>, present: Seq<Seq<char>>) -> Visit {
    if string_views(opts.exclude_dirs@).contains(walk_name(path)) {
        Visit::Skip
    } else if ignored_by(path, string_views(opts.ignore_patterns@)) {
        Visit::Skip
    } else {
        match classification(path, present) {
            Some(k) => if opts.exclude_kinds@.contains(k) {
                Visit::Skip
            } else {
                Visit::Report(k)
            },
            None => Visit::Descend,
        }
    }
}

/// Decides what the walk does with the directory `path`; `present` lists
/// the files among [`marker_probe_paths`] that exist.
pub fn visit_dir(opts: &ScanOptions, path: &str, present: &[String]) -> (r: Visit)
    ensures
        r == visit_of(*opts, path@, string_views(present@)),
{
    let v = chars_of(path);
    let name = match crate::paths::file_name_chars(&v) {
        Some(n) => n,
        None => v,
    };
    assert(name@ == walk_name(path@));
    if list_contains(opts.exclude_dirs.as_slice(), &name) {
        return Visit::Skip;
    }
    assert(opts.ignore_patterns@.map_values(|p: String| p@) == string_views(opts.ignore_patterns@));
    if is_ignored(path, opts.ignore_patterns.as_slice()) {
        return Visit::Skip;
    }
    match classify_path(path, present) {
        Some(k) => if kind_listed(&opts.exclude_kinds, k) {
            Visit::Skip
        } else {
            Visit::Report(k)
        },
        None => Visit::Descend,
    }
}

/// The lockfiles looked for next to a `node_modules`, in order of precedence.
pub open spec fn lockfile_probes(node_modules: Seq<char>) -> Seq<Seq<char>> {
    match parent_of(node_modules) {
        Some(p) => seq![
            join_of(p, "pnpm-lock.yaml"@),
            join_of(p, "yarn.lock"@),
            join_of(p, "package-lock.json"@),
        ],
        None => seq![],
    }
}

/// The package manager inferred from the lockfiles next to `node_modules`:
/// pnpm, then yarn, then npm; unknown when none exists or there is no parent.
pub open spec fn package_manager_of(node_modules: Seq<char>, present: Seq<Seq<char>>) -> PackageManager {
    match parent_of(node_modules) {
        Some(p) => if present.contains(join_of(p, "pnpm-lock.yaml"@)) {
            PackageManager::Pnpm
        } else if present.contains(join_of(p, "yarn.lock"@)) {
            PackageManager::Yarn
        } else if present.contains(join_of(p, "package-lock.json"@)) {
            PackageManager::Npm
        } else {
            PackageManager::Unknown
        },
        None => PackageManager::Unknown,
    }
}

/// The lockfiles whose existence decides the package manager of `node_modules`.
pub fn lockfile_probe_paths(node_modules: &str) -> (r: Vec<String>)
    ensures
        string_views(r@) == lockfile_probes(node_modules@),
{
    let mut out: Vec<String> = Vec::new();
    match parent(node_modules) {
        Some(p) => {
            let a = join(p.as_str(), "pnpm-lock.yaml");
            let b = join(p.as_str(), "yarn.lock");
            let c = join(p.as_str(), "package-lock.json");
            out.push(a);
            out.push(b);
            out.push(c);
            assert(string_views(out@) =~= lockfile_probes(node_modules@));
        },
        None => {
            assert(string_views(out@) =~= lockfile_probes(node_modules@));
        },
    }
    out
}

/// Infers which package manager created `node_modules`; `present` lists the
/// lockfiles among [`lockfile_probe_paths`] that exist.
pub fn detect_package_manager(node_modules: &str, present: &[String]) -> (r: PackageManager)
    ensures
        r == package_manager_of(node_modules@, string_views(present@)),
{
    match parent(node_modules) {
        Some(p) => {
            let pnpm = chars_of(join(p.as_str(), "pnpm-lock.yaml").as_str());
            let yarn = chars_of(join(p.as_str(), "yarn.lock").as_str());
            let npm = chars_of(join(p.as_str(), "package-lock.json").as_str());
            if list_contains(present, &pnpm) {
                PackageManager::Pnpm
            } else if list_contains(present, &yarn) {
                PackageManager::Yarn
            } else if list_contains(present, &npm) {
                PackageManager::Npm
            } else {
                PackageManager::Unknown
            }
        },
        None => PackageManager::Unknown,
    }
}

/// The entry for an artifact found by the walk: its size is the measured
/// size when sizes are computed and 0 otherwise; a `node_modules` gets the
/// package manager its lockfiles show (`present` lists the lockfiles that
/// exist); the workspace root is filled in later.
pub fn build_entry(
    path: String,
    kind: ArtifactKind,
    compute_sizes: bool,
    measured_size: u64,
    present: &[String],
    last_modified: Option<i128>,
) -> (r: Entry)
    ensures
        r.path == path,
        r.kind == kind,
        r.size_bytes == if compute_sizes {
            measured_size
        } else {
            0
        },
        r.package_manager == if kind == ArtifactKind::NodeModules {
            Some(package_manager_of(path@, string_views(present@)))
        } else {
            None::<PackageManager>
        },
        r.last_modified == last_modified,
        r.workspace_root is None,
{
    let size_bytes = if compute_sizes {
        measured_size
    } else {
        0
    };
    let package_manager = if kind == ArtifactKind::NodeModules {
        Some(detect_package_manager(path.as_str(), present))
    } else {
        None
    };
    Entry { path, size_bytes, kind, package_manager, last_modified, workspace_root: None }
}

} // verus!
