//! The data that the scanner finds and the front ends show: artifact kinds,
//! entries, scan options and workspace groups.
use vstd::prelude::*;
use crate::text::{chars_of, chars_eq};
use crate::paths::string_views;

verus! {

broadcast use vstd::string::group_string_axioms;

/// The kind of disposable dev artifact a directory represents. Each variant
/// corresponds to a rule of the scanner.
#[derive(Debug, Clone, Copy, PartialEq, Eq, Hash, Structural)]
pub enum ArtifactKind {
    /// JS/TS dependency install (npm/yarn/pnpm).
    NodeModules,
    /// Python virtual environment (venv / .venv).
    PythonVenv,
    /// Python bytecode cache.
    PythonPycache,
    /// pytest's cache directory.
    PythonPytestCache,
    /// mypy's type-check cache.
    PythonMypyCache,
    /// ruff's lint cache.
    PythonRuffCache,
    /// Rust/Cargo build output.
    RustTarget,
    /// Maven build output.
    JavaMavenTarget,
    /// Gradle build output.
    JavaGradleBuild,
    /// Next.js build cache.
    NextCache,
    /// Turborepo cache.
    TurboCache,
    /// Generic bundler output directory (e.g. `dist`), confirmed by a
    /// nearby `package.json` so a random unrelated `dist/` isn't matched.
    GenericDist,
}

/// Every known kind, in the order they should be listed in a UI.
pub open spec fn all_kinds() -> Seq<ArtifactKind> {
    seq![
        ArtifactKind::NodeModules,
        ArtifactKind::PythonVenv,
        ArtifactKind::PythonPycache,
        ArtifactKind::PythonPytestCache,
        ArtifactKind::PythonMypyCache,
        ArtifactKind::PythonRuffCache,
        ArtifactKind::RustTarget,
        ArtifactKind::JavaMavenTarget,
        ArtifactKind::JavaGradleBuild,
        ArtifactKind::NextCache,
        ArtifactKind::TurboCache,
        ArtifactKind::GenericDist,
    ]
}

/// The short slug of a kind, used in CLI flags and JSON.
pub open spec fn slug_of(k: ArtifactKind) -> Seq<char> {
    match k {
        ArtifactKind::NodeModules => "node_modules"@,
        ArtifactKind::PythonVenv => "venv"@,
        ArtifactKind::PythonPycache => "pycache"@,
        ArtifactKind::PythonPytestCache => "pytest_cache"@,
        ArtifactKind::PythonMypyCache => "mypy_cache"@,
        ArtifactKind::PythonRuffCache => "ruff_cache"@,
        ArtifactKind::RustTarget => "rust_target"@,
        ArtifactKind::JavaMavenTarget => "maven_target"@,
        ArtifactKind::JavaGradleBuild => "gradle_build"@,
        ArtifactKind::NextCache => "next_cache"@,
        ArtifactKind::TurboCache => "turbo_cache"@,
        ArtifactKind::GenericDist => "dist"@,
    }
}

/// The human-readable label of a kind.
pub open spec fn label_of(k: ArtifactKind) -> Seq<char> {
    match k {
        ArtifactKind::NodeModules => "node_modules"@,
        ArtifactKind::PythonVenv => "Python venv"@,
        ArtifactKind::PythonPycache => "__pycache__"@,
        ArtifactKind::PythonPytestCache => ".pytest_cache"@,
        ArtifactKind::PythonMypyCache => ".mypy_cache"@,
        ArtifactKind::PythonRuffCache => ".ruff_cache"@,
        ArtifactKind::RustTarget => "Cargo target"@,
        ArtifactKind::JavaMavenTarget => "Maven target"@,
        ArtifactKind::JavaGradleBuild => "Gradle build"@,
        ArtifactKind::NextCache => "Next.js cache"@,
        ArtifactKind::TurboCache => "Turborepo cache"@,
        ArtifactKind::GenericDist => "dist/"@,
    }
}

/// The caution shown before deleting a Python virtual environment.
pub open spec fn venv_risk_note() -> Seq<char> {
    "This is a Python virtual environment, not just a cache. If nothing has \
     a requirements.txt/poetry.lock recording its exact packages, deleting it \
     loses that environment for good — and if any running process, service, or \
     script currently points at this venv's interpreter, it will break the moment \
     this is gone."@
}

impl ArtifactKind {
    /// Every known kind, in the order they should be listed in a UI.
    pub fn all() -> (r: Vec<ArtifactKind>)
        ensures
            r@ == all_kinds(),
    {
        let r = vec![
            ArtifactKind::NodeModules,
            ArtifactKind::PythonVenv,
            ArtifactKind::PythonPycache,
            ArtifactKind::PythonPytestCache,
            ArtifactKind::PythonMypyCache,
            ArtifactKind::PythonRuffCache,
            ArtifactKind::RustTarget,
            ArtifactKind::JavaMavenTarget,
            ArtifactKind::JavaGradleBuild,
            ArtifactKind::NextCache,
            ArtifactKind::TurboCache,
            ArtifactKind::GenericDist,
        ];
        assert(r@ =~= all_kinds());
        r
    }

    /// Short slug used in CLI flags (`--exclude-types venv,pycache`) and JSON.
    pub fn slug(&self) -> (s: &'static str)
        ensures
            s@ == slug_of(*self),
    {
        match self {
            ArtifactKind::NodeModules => "node_modules",
            ArtifactKind::PythonVenv => "venv",
            ArtifactKind::PythonPycache => "pycache",
            ArtifactKind::PythonPytestCache => "pytest_cache",
            ArtifactKind::PythonMypyCache => "mypy_cache",
            ArtifactKind::PythonRuffCache => "ruff_cache",
            ArtifactKind::RustTarget => "rust_target",
            ArtifactKind::JavaMavenTarget => "maven_target",
            ArtifactKind::JavaGradleBuild => "gradle_build",
            ArtifactKind::NextCache => "next_cache",
            ArtifactKind::TurboCache => "turbo_cache",
            ArtifactKind::GenericDist => "dist",
        }
    }

    /// The kind whose slug is `slug`, if any.
    pub fn from_slug(slug: &str) -> (r: Option<ArtifactKind>)
        ensures
            match r {
                Some(k) => slug_of(k) == slug@,
                None => forall|k: ArtifactKind| slug_of(k) != slug@,
            },
    {
        let s = chars_of(slug);
        let kinds = ArtifactKind::all();
        let mut i: usize = 0;
        while i < kinds.len()
            invariant
                kinds@ == all_kinds(),
                s@ == slug@,
                i <= kinds@.len(),
                forall|j: int| 0 <= j < i ==> slug_of(#[trigger] all_kinds()[j]) != slug@,
            decreases kinds@.len() - i,
        {
            let k = kinds[i];
            let t = chars_of(k.slug());
            if chars_eq(&s, &t) {
                return Some(k);
            }
            i = i + 1;
        }
        proof {
            assert forall|k: ArtifactKind| slug_of(k) != slug@ by {
                lemma_kind_listed(k);
            }
        }
        None
    }

    /// Human-readable label.
    pub fn label(&self) -> (s: &'static str)
        ensures
            s@ == label_of(*self),
    {
        match self {
            ArtifactKind::NodeModules => "node_modules",
            ArtifactKind::PythonVenv => "Python venv",
            ArtifactKind::PythonPycache => "__pycache__",
            ArtifactKind::PythonPytestCache => ".pytest_cache",
            ArtifactKind::PythonMypyCache => ".mypy_cache",
            ArtifactKind::PythonRuffCache => ".ruff_cache",
            ArtifactKind::RustTarget => "Cargo target",
            ArtifactKind::JavaMavenTarget => "Maven target",
            ArtifactKind::JavaGradleBuild => "Gradle build",
            ArtifactKind::NextCache => "Next.js cache",
            ArtifactKind::TurboCache => "Turborepo cache",
            ArtifactKind::GenericDist => "dist/",
        }
    }

    /// A caution message shown before deleting this kind, for artifact types
    /// where recreation isn't as simple/lossless as re-running a standard
    /// install command. `None` means no extra warning is needed beyond the
    /// normal delete confirmation; only a Python virtual environment has one.
    pub fn risk_note(&self) -> (r: Option<&'static str>)
        ensures
            r is Some <==> *self == ArtifactKind::PythonVenv,
            r matches Some(n) ==> n@ == venv_risk_note(),
    {
        match self {
            ArtifactKind::PythonVenv => Some(
                "This is a Python virtual environment, not just a cache. If nothing has \
                 a requirements.txt/poetry.lock recording its exact packages, deleting it \
                 loses that environment for good — and if any running process, service, or \
                 script currently points at this venv's interpreter, it will break the moment \
                 this is gone.",
            ),
            _ => None,
        }
    }
}

/// Every kind occurs in [`all_kinds`].
pub proof fn lemma_kind_listed(k: ArtifactKind)
    ensures
        exists|j: int| 0 <= j < all_kinds().len() && all_kinds()[j] == k,
{
    match k {
        ArtifactKind::NodeModules => assert(all_kinds()[0] == k),
        ArtifactKind::PythonVenv => assert(all_kinds()[1] == k),
        ArtifactKind::PythonPycache => assert(all_kinds()[2] == k),
        ArtifactKind::PythonPytestCache => assert(all_kinds()[3] == k),
        ArtifactKind::PythonMypyCache => assert(all_kinds()[4] == k),
        ArtifactKind::PythonRuffCache => assert(all_kinds()[5] == k),
        ArtifactKind::RustTarget => assert(all_kinds()[6] == k),
        ArtifactKind::JavaMavenTarget => assert(all_kinds()[7] == k),
        ArtifactKind::JavaGradleBuild => assert(all_kinds()[8] == k),
        ArtifactKind::NextCache => assert(all_kinds()[9] == k),
        ArtifactKind::TurboCache => assert(all_kinds()[10] == k),
        ArtifactKind::GenericDist => assert(all_kinds()[11] == k),
    }
}

/// The package manager that created a `node_modules`, inferred from lockfiles.
#[derive(Debug, Clone, Copy, PartialEq, Eq, Structural)]
pub enum PackageManager {
    Npm,
    Yarn,
    Pnpm,
    Unknown,
}

/// A single discovered disposable artifact directory.
#[derive(Debug, Clone)]
pub struct Entry {
    pub path: String,
    pub size_bytes: u64,
    pub kind: ArtifactKind,
    /// Only meaningful when `kind == NodeModules`; inferred from lockfile.
    pub package_manager: Option<PackageManager>,
    /// Last modification time, in nanoseconds since the Unix epoch
    /// (negative before it).
    pub last_modified: Option<i128>,
    /// The detected monorepo/workspace root this entry sits inside, if any.
    pub workspace_root: Option<String>,
}

/// What the scanner is asked to do.
#[derive(Debug, Clone)]
pub struct ScanOptions {
    pub root: String,
    /// Follow symlinked directories (off by default: avoids infinite loops
    /// and double counting).
    pub follow_symlinks: bool,
    /// Directory names to skip entirely (never descended into, never reported).
    pub exclude_dirs: Vec<String>,
    /// Artifact kinds to skip. Empty by default: every known kind is
    /// scanned for unless the caller opts out.
    pub exclude_kinds: Vec<ArtifactKind>,
    /// If false, only paths and metadata are returned without computing
    /// directory sizes.
    pub compute_sizes: bool,
    /// Patterns from `.nodewipeignore` files; a matching directory is
    /// skipped like an excluded one.
    pub ignore_patterns: Vec<String>,
}

/// The directory names that a default scan never enters: version control,
/// OS trash locations and package-manager-owned stores.
pub open spec fn default_exclude_dirs() -> Seq<Seq<char>> {
    seq![
        ".git"@,
        "Trash"@,
        "$Recycle.Bin"@,
        ".Trash"@,
        ".npm"@,
        ".bun"@,
        ".pnpm-store"@,
        ".yarn"@,
        ".cargo"@,
        ".rustup"@,
        "site-packages"@,
    ]
}

impl Default for ScanOptions {
    /// Scan `.`, do not follow symlinks, skip the default directories,
    /// exclude no kind, compute sizes, no ignore patterns.
    fn default() -> (r: Self)
        ensures
            r.root@ == "."@,
            !r.follow_symlinks,
            string_views(r.exclude_dirs@) == default_exclude_dirs(),
            r.exclude_kinds@.len() == 0,
            r.compute_sizes,
            r.ignore_patterns@.len() == 0,
    {
        let exclude_dirs = vec![
            ".git".to_string(),
            // OS trash locations: no point surfacing artifacts that are
            // already trashed.
            "Trash".to_string(),
            "$Recycle.Bin".to_string(),
            ".Trash".to_string(),
            // Package-manager-owned cache/store directories.
            ".npm".to_string(),
            ".bun".to_string(),
            ".pnpm-store".to_string(),
            ".yarn".to_string(),
            ".cargo".to_string(),
            ".rustup".to_string(),
            // Lives inside a venv; the venv itself is the unit.
            "site-packages".to_string(),
        ];
        assert(string_views(exclude_dirs@) =~= default_exclude_dirs());
        ScanOptions {
            root: ".".to_string(),
            follow_symlinks: false,
            exclude_dirs,
            exclude_kinds: Vec::new(),
            compute_sizes: true,
            ignore_patterns: Vec::new(),
        }
    }
}

/// Grouped view of entries under a common workspace root.
#[derive(Debug, Clone)]
pub struct WorkspaceGroup {
    pub root: String,
    pub entries: Vec<Entry>,
    pub total_size_bytes: u64,
}

/// Slugs name kinds one to one: the slug of a kind leads back to it, and no
/// two kinds share a slug.
pub proof fn lemma_slug_round_trip(k: ArtifactKind, k2: ArtifactKind)
    ensures
        slug_of(k) == slug_of(k2) <==> k == k2,
{
    reveal_strlit("node_modules");
    reveal_strlit("venv");
    reveal_strlit("pycache");
    reveal_strlit("pytest_cache");
    reveal_strlit("mypy_cache");
    reveal_strlit("ruff_cache");
    reveal_strlit("rust_target");
    reveal_strlit("maven_target");
    reveal_strlit("gradle_build");
    reveal_strlit("next_cache");
    reveal_strlit("turbo_cache");
    reveal_strlit("dist");
    if k != k2 {
        assert(slug_of(k).len() != slug_of(k2).len() || exists|i: int|
            0 <= i < slug_of(k).len() && slug_of(k)[i] != slug_of(k2)[i]) by {
            if slug_of(k).len() == slug_of(k2).len() {
                if slug_of(k)[0] != slug_of(k2)[0] {
                } else if slug_of(k)[1] != slug_of(k2)[1] {
                } else {
                    assert(slug_of(k)[2] != slug_of(k2)[2]);
                }
            }
        }
    }
}

} // verus!
