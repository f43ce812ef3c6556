//! Monorepo/workspace detection and grouping.
//!
//! Detection walks up from an artifact's parent directory: the nearest
//! directory that holds a workspace marker file (`pnpm-workspace.yaml`,
//! `lerna.json`) or a `package.json` with a `"workspaces"` field becomes the
//! entry's workspace root; the walk stops at the scan root.
//! [`workspace_search_dirs`] names the directories to look at; the caller
//! checks their files, and [`find_workspace_root`] picks the nearest root.
//!
//! Grouping collects entries by workspace root (entries with none form one
//! group), in the order of `Option<PathBuf>`.
use vstd::prelude::*;
use crate::model::{Entry, WorkspaceGroup};
use crate::paths::{join, join_of, parent, parent_of, path_components, string_views, lemma_parent_shorter};
use crate::scanner::list_contains;
use crate::pathorder::{
    KeyOrder, compare_opt_keys, lemma_opt_irreflexive, lemma_opt_total, lemma_opt_transitive,
    opt_ints, opt_key_lt, opt_path_key, opt_sort_key, same_path,
};
use crate::text::{chars_of, chars_eq, range_eq};

verus! {

broadcast use vstd::string::group_string_axioms;

/// The text of an optional string.
pub open spec fn opt_view(o: Option<String>) -> Option<Seq<char>> {
    match o {
        Some(s) => Some(s@),
        None => None,
    }
}

/// The grouping key of an entry: the key of its workspace root.
pub open spec fn entry_key(e: Entry) -> Option<Seq<int>> {
    opt_path_key(e.workspace_root)
}

/// The entries of `es` whose key is `k`, in order.
pub open spec fn with_key(es: Seq<Entry>, k: Option<Seq<int>>) -> Seq<Entry>
    decreases es.len(),
{
    if es.len() == 0 {
        seq![]
    } else {
        let r = with_key(es.drop_last(), k);
        if entry_key(es.last()) == k {
            r.push(es.last())
        } else {
            r
        }
    }
}

/// Total size of the entries.
pub open spec fn sum_sizes(es: Seq<Entry>) -> int
    decreases es.len(),
{
    if es.len() == 0 {
        0
    } else {
        sum_sizes(es.drop_last()) + es.last().size_bytes
    }
}

/// Group `g` under `key` is the group of `es` for that key: the entries with
/// that key in the order given, the key and root taken from the first of
/// them, and their total size.
pub open spec fn group_of(key: Option<String>, g: WorkspaceGroup, es: Seq<Entry>) -> bool {
    let k = opt_path_key(key);
    &&& g.entries@ == with_key(es, k)
    &&& g.entries@.len() > 0
    &&& opt_view(key) == opt_view(g.entries@[0].workspace_root)
    &&& g.root@ == match opt_view(key) {
        Some(r) => r,
        None => g.entries@[0].path@,
    }
    &&& g.total_size_bytes == sum_sizes(g.entries@)
}

/// `gs` groups `es` by workspace root: keys strictly increasing, each group
/// as [`group_of`] says, and every entry's key present.
pub open spec fn grouping_of(es: Seq<Entry>, gs: Seq<(Option<String>, WorkspaceGroup)>) -> bool {
    &&& forall|i: int, j: int|
        0 <= i < j < gs.len() ==> opt_key_lt(opt_path_key(#[trigger] gs[i].0), opt_path_key(
            #[trigger] gs[j].0,
        ))
    &&& forall|i: int| 0 <= i < gs.len() ==> group_of(#[trigger] gs[i].0, gs[i].1, es)
    &&& forall|m: int|
        0 <= m < es.len() ==> exists|i: int|
            0 <= i < gs.len() && opt_path_key(#[trigger] gs[i].0) == entry_key(#[trigger] es[m])
}

proof fn lemma_with_key_push(es: Seq<Entry>, e: Entry, k: Option<Seq<int>>)
    ensures
        with_key(es.push(e), k) == if entry_key(e) == k {
            with_key(es, k).push(e)
        } else {
            with_key(es, k)
        },
        sum_sizes(es.push(e)) == sum_sizes(es) + e.size_bytes,
{
    assert(es.push(e).drop_last() =~= es);
}

proof fn lemma_with_key_absent(es: Seq<Entry>, k: Option<Seq<int>>)
    requires
        forall|m: int| 0 <= m < es.len() ==> entry_key(#[trigger] es[m]) != k,
    ensures
        with_key(es, k) == Seq::<Entry>::empty(),
    decreases es.len(),
{
    if es.len() > 0 {
        assert(entry_key(es[es.len() - 1]) != k);
        lemma_with_key_absent(es.drop_last(), k);
    }
}

proof fn lemma_sum_with_key_le(es: Seq<Entry>, k: Option<Seq<int>>)
    ensures
        sum_sizes(with_key(es, k)) <= sum_sizes(es),
        0 <= sum_sizes(with_key(es, k)),
    decreases es.len(),
{
    if es.len() > 0 {
        assert(es.drop_last().push(es.last()) =~= es);
        lemma_sum_with_key_le(es.drop_last(), k);
        lemma_with_key_push(es.drop_last(), es.last(), k);
        lemma_with_key_push(with_key(es.drop_last(), k), es.last(), k);
    }
}

proof fn lemma_sum_prefix_le(es: Seq<Entry>, n: int)
    requires
        0 <= n <= es.len(),
    ensures
        sum_sizes(es.take(n)) <= sum_sizes(es),
    decreases es.len() - n,
{
    if n < es.len() {
        lemma_sum_prefix_le(es, n + 1);
        assert(es.take(n + 1).drop_last() =~= es.take(n));
    } else {
        assert(es.take(n) =~= es);
    }
}

/// A copy of an optional string.
fn copy_opt_string(o: &Option<String>) -> (r: Option<String>)
    ensures
        r == *o,
{
    match o {
        Some(s) => Some(s.clone()),
        None => None,
    }
}

/// Adds `e` to the existing group at `j`, whose key is the entry's key.
fn join_group(
    groups: &mut Vec<(Option<String>, WorkspaceGroup)>,
    keys: &mut Vec<Option<Vec<u64>>>,
    j: usize,
    e: Entry,
    ek: Option<Vec<u64>>,
    Ghost(prefix): Ghost<Seq<Entry>>,
)
    requires
        old(keys)@.len() == old(groups)@.len(),
        forall|i: int|
            0 <= i < old(keys)@.len() ==> opt_ints(#[trigger] old(keys)@[i]) == opt_path_key(
                old(groups)@[i].0,
            ),
        grouping_of(prefix, old(groups)@),
        sum_sizes(prefix.push(e)) <= u64::MAX,
        opt_ints(ek) == entry_key(e),
        j <= old(groups)@.len(),
        forall|i: int|
            0 <= i < j ==> opt_key_lt(opt_path_key(#[trigger] old(groups)@[i].0), entry_key(e)),
        j < old(groups)@.len(),
        opt_ints(old(keys)@[j as int]) == entry_key(e),
    ensures
        final(keys)@.len() == final(groups)@.len(),
        forall|i: int|
            0 <= i < final(keys)@.len() ==> opt_ints(#[trigger] final(keys)@[i]) == opt_path_key(
                final(groups)@[i].0,
            ),
        grouping_of(prefix.push(e), final(groups)@),
{
    let ghost next = prefix.push(e);
    let ghost gs0 = groups@;
    proof {
        lemma_with_key_push(prefix, e, entry_key(e));
        lemma_sum_with_key_le(next, entry_key(e));
    }
            // The entry joins an existing group.
            let (key, mut g) = groups.remove(j);
            let ghost g0 = g;
            let size = e.size_bytes;
            proof {
                assert(group_of(gs0[j as int].0, gs0[j as int].1, prefix));
                assert(opt_path_key(key) == entry_key(e));
                lemma_with_key_push(with_key(prefix, entry_key(e)), e, entry_key(e));
                assert(g.total_size_bytes + size == sum_sizes(with_key(next, entry_key(e))));
            }
            g.total_size_bytes = g.total_size_bytes + size;
            g.entries.push(e);
            groups.insert(j, (key, g));
            proof {
                assert(g.entries@ =~= g0.entries@.push(e));
                assert forall|i: int| 0 <= i < groups@.len() implies group_of(
                    #[trigger] groups@[i].0,
                    groups@[i].1,
                    next,
                ) by {
                    assert(group_of(gs0[i].0, gs0[i].1, prefix));
                    lemma_with_key_push(prefix, e, opt_path_key(gs0[i].0));
                    if i != j {
                        assert(groups@[i] == gs0[i]);
                        lemma_opt_irreflexive(entry_key(e));
                    } else {
                        assert(groups@[i].1 == g);
                        lemma_with_key_push(g0.entries@, e, entry_key(e));
                        assert(g.entries@[0] == g0.entries@[0]);
                    }
                }
                assert forall|m: int| 0 <= m < next.len() implies exists|i: int|
                    0 <= i < groups@.len() && opt_path_key(#[trigger] groups@[i].0) == entry_key(
                        #[trigger] next[m],
                    ) by {
                    if m < prefix.len() {
                        assert(next[m] == prefix[m]);
                        let i = choose|i: int|
                            0 <= i < gs0.len() && opt_path_key(#[trigger] gs0[i].0) == entry_key(
                                prefix[m],
                            );
                        assert(opt_path_key(groups@[i].0) == opt_path_key(gs0[i].0));
                    } else {
                        assert(opt_path_key(groups@[j as int].0) == entry_key(next[m]));
                    }
                }
                assert forall|a: int, b: int| 0 <= a < b < groups@.len() implies opt_key_lt(
                    opt_path_key(#[trigger] groups@[a].0),
                    opt_path_key(#[trigger] groups@[b].0),
                ) by {
                    assert(opt_path_key(groups@[a].0) == opt_path_key(gs0[a].0));
                    assert(opt_path_key(groups@[b].0) == opt_path_key(gs0[b].0));
                }
            }
}

/// Starts a new group for `e` at `j`: every group before `j` has a smaller
/// key, and the group at `j`, if any, does not have the entry's key.
fn new_group(
    groups: &mut Vec<(Option<String>, WorkspaceGroup)>,
    keys: &mut Vec<Option<Vec<u64>>>,
    j: usize,
    e: Entry,
    ek: Option<Vec<u64>>,
    Ghost(prefix): Ghost<Seq<Entry>>,
)
    requires
        old(keys)@.len() == old(groups)@.len(),
        forall|i: int|
            0 <= i < old(keys)@.len() ==> opt_ints(#[trigger] old(keys)@[i]) == opt_path_key(
                old(groups)@[i].0,
            ),
        grouping_of(prefix, old(groups)@),
        sum_sizes(prefix.push(e)) <= u64::MAX,
        opt_ints(ek) == entry_key(e),
        j <= old(groups)@.len(),
        forall|i: int|
            0 <= i < j ==> opt_key_lt(opt_path_key(#[trigger] old(groups)@[i].0), entry_key(e)),
        j < old(groups)@.len() ==> opt_ints(old(keys)@[j as int]) != entry_key(e),
        j < old(groups)@.len() ==> !opt_key_lt(opt_path_key(old(groups)@[j as int].0), entry_key(e)),
    ensures
        final(keys)@.len() == final(groups)@.len(),
        forall|i: int|
            0 <= i < final(keys)@.len() ==> opt_ints(#[trigger] final(keys)@[i]) == opt_path_key(
                final(groups)@[i].0,
            ),
        grouping_of(prefix.push(e), final(groups)@),
{
    let ghost next = prefix.push(e);
    let ghost gs0 = groups@;
            // The entry starts a new group, placed at `j`.
            proof {
                assert forall|m: int| 0 <= m < prefix.len() implies entry_key(
                    #[trigger] prefix[m],
                ) != entry_key(e) by {
                    let i = choose|i: int|
                        0 <= i < gs0.len() && opt_path_key(#[trigger] gs0[i].0) == entry_key(
                            prefix[m],
                        );
                    if entry_key(prefix[m]) == entry_key(e) {
                        if i < j {
                            lemma_opt_irreflexive(entry_key(e));
                        } else if i == j {
                            assert(opt_ints(keys@[j as int]) == opt_path_key(gs0[j as int].0));
                        } else {
                            if j < gs0.len() {
                                assert(opt_key_lt(
                                    opt_path_key(gs0[j as int].0),
                                    opt_path_key(gs0[i].0),
                                ));
                                lemma_opt_total(opt_path_key(gs0[j as int].0), entry_key(e));
                                lemma_opt_transitive(
                                    entry_key(e),
                                    opt_path_key(gs0[j as int].0),
                                    entry_key(e),
                                );
                                lemma_opt_irreflexive(entry_key(e));
                            }
                        }
                    }
                }
                lemma_with_key_absent(prefix, entry_key(e));
                lemma_with_key_push(prefix, e, entry_key(e));
                assert(with_key(next, entry_key(e)) =~= seq![e]);
                assert(sum_sizes(seq![e]) == e.size_bytes) by {
                    lemma_with_key_push(Seq::<Entry>::empty(), e, entry_key(e));
                    assert(Seq::<Entry>::empty().push(e) =~= seq![e]);
                }
            }
            let key = copy_opt_string(&e.workspace_root);
            let root = match &e.workspace_root {
                Some(w) => w.clone(),
                None => e.path.clone(),
            };
            let size = e.size_bytes;
            let mut members: Vec<Entry> = Vec::new();
            members.push(e);
            let g = WorkspaceGroup { root, entries: members, total_size_bytes: size };
            assert(g.entries@ =~= seq![e]);
            groups.insert(j, (key, g));
            keys.insert(j, ek);
            proof {
                assert forall|i: int| 0 <= i < keys@.len() implies opt_ints(#[trigger] keys@[i])
                    == opt_path_key(groups@[i].0) by {
                    if i < j {
                        assert(keys@[i] == old_keys(keys@, j as int, i));
                    }
                }
                assert forall|i: int| 0 <= i < groups@.len() implies group_of(
                    #[trigger] groups@[i].0,
                    groups@[i].1,
                    next,
                ) by {
                    if i < j {
                        assert(groups@[i] == gs0[i]);
                        assert(group_of(gs0[i].0, gs0[i].1, prefix));
                        lemma_with_key_push(prefix, e, opt_path_key(gs0[i].0));
                        lemma_opt_irreflexive(entry_key(e));
                    } else if i > j {
                        assert(groups@[i] == gs0[i - 1]);
                        assert(group_of(gs0[i - 1].0, gs0[i - 1].1, prefix));
                        lemma_with_key_push(prefix, e, opt_path_key(gs0[i - 1].0));
                        if opt_path_key(gs0[i - 1].0) == entry_key(e) {
                            assert(gs0[i - 1].1.entries@.len() > 0);
                            assert(with_key(prefix, entry_key(e)).len() == 0);
                        }
                    }
                }
                assert forall|m: int| 0 <= m < next.len() implies exists|i: int|
                    0 <= i < groups@.len() && opt_path_key(#[trigger] groups@[i].0) == entry_key(
                        #[trigger] next[m],
                    ) by {
                    if m < prefix.len() {
                        assert(next[m] == prefix[m]);
                        let i = choose|i: int|
                            0 <= i < gs0.len() && opt_path_key(#[trigger] gs0[i].0) == entry_key(
                                prefix[m],
                            );
                        if i < j {
                            assert(groups@[i] == gs0[i]);
                        } else {
                            assert(groups@[i + 1] == gs0[i]);
                        }
                    } else {
                        assert(opt_path_key(groups@[j as int].0) == entry_key(next[m]));
                    }
                }
                assert forall|a: int, b: int| 0 <= a < b < groups@.len() implies opt_key_lt(
                    opt_path_key(#[trigger] groups@[a].0),
                    opt_path_key(#[trigger] groups@[b].0),
                ) by {
                    let ke = entry_key(e);
                    if j < gs0.len() {
                        lemma_opt_total(opt_path_key(gs0[j as int].0), ke);
                    }
                    if a < j && b < j {
                        assert(groups@[a] == gs0[a] && groups@[b] == gs0[b]);
                    } else if a < j && b == j {
                        assert(groups@[a] == gs0[a]);
                    } else if a < j && b > j {
                        assert(groups@[a] == gs0[a] && groups@[b] == gs0[b - 1]);
                    } else if a == j {
                        assert(groups@[b] == gs0[b - 1]);
                        if b - 1 > j {
                            lemma_opt_transitive(ke, opt_path_key(gs0[j as int].0), opt_path_key(
                                gs0[b - 1].0,
                            ));
                        }
                    } else {
                        assert(groups@[a] == gs0[a - 1] && groups@[b] == gs0[b - 1]);
                    }
                }
            }
}

/// Groups entries by their `workspace_root`. Entries with no workspace root
/// are grouped under `None` (standalone projects). Groups come in the order
/// of their keys, `None` first, paths ordered as `Path` orders them; paths
/// equal as `Path` values share a group.
pub fn group_by_workspace(entries: Vec<Entry>) -> (r: Vec<(Option<String>, WorkspaceGroup)>)
    requires
        sum_sizes(entries@) <= u64::MAX,
    ensures
        grouping_of(entries@, r@),
{
    let ghost orig = entries@;
    let mut rest = entries;
    let total_len = rest.len();
    let mut groups: Vec<(Option<String>, WorkspaceGroup)> = Vec::new();
    let mut keys: Vec<Option<Vec<u64>>> = Vec::new();
    let mut n: usize = 0;
    assert(orig.skip(0) =~= orig);
    assert(orig.take(0) =~= Seq::<Entry>::empty());
    while rest.len() > 0
        invariant
            n <= orig.len(),
            orig.len() == total_len,
            rest@ == orig.skip(n as int),
            sum_sizes(orig) <= u64::MAX,
            keys@.len() == groups@.len(),
            forall|i: int|
                0 <= i < keys@.len() ==> opt_ints(#[trigger] keys@[i]) == opt_path_key(
                    groups@[i].0,
                ),
            grouping_of(orig.take(n as int), groups@),
        decreases rest@.len(),
    {
        let ghost prefix = orig.take(n as int);
        let e = rest.remove(0);
        assert(rest@ =~= orig.skip(n + 1));
        assert(e == orig[n as int]);
        assert(orig.take(n + 1) =~= prefix.push(e));
        let ek = opt_sort_key(&e.workspace_root);
        assert(opt_ints(ek) == entry_key(e));
        proof {
            lemma_sum_prefix_le(orig, n + 1);
        }
        // First group whose key is not below the entry's key.
        let mut j: usize = 0;
        while j < keys.len() && compare_opt_keys(&keys[j], &ek) == KeyOrder::Less
            invariant
                j <= keys@.len(),
                keys@.len() == groups@.len(),
                opt_ints(ek) == entry_key(e),
                forall|i: int|
                    0 <= i < keys@.len() ==> opt_ints(#[trigger] keys@[i]) == opt_path_key(
                        groups@[i].0,
                    ),
                forall|i: int|
                    0 <= i < j ==> opt_key_lt(opt_path_key(#[trigger] groups@[i].0), entry_key(e)),
            decreases keys@.len() - j,
        {
            j = j + 1;
        }
        if j < keys.len() && compare_opt_keys(&keys[j], &ek) == KeyOrder::Same {
            join_group(&mut groups, &mut keys, j, e, ek, Ghost(prefix));
        } else {
            new_group(&mut groups, &mut keys, j, e, ek, Ghost(prefix));
        }
        n = n + 1;
    }
    assert(orig.take(n as int) =~= orig);
    groups
}

/// The element at `i` of a sequence before an insertion at `j > i`.
spec fn old_keys(s: Seq<Option<Vec<u64>>>, j: int, i: int) -> Option<Vec<u64>> {
    s[i]
}

/// `e` with its workspace root set to `root`, every other field kept.
pub open spec fn with_root(e: Entry, root: Option<String>) -> Entry {
    Entry {
        path: e.path,
        size_bytes: e.size_bytes,
        kind: e.kind,
        package_manager: e.package_manager,
        last_modified: e.last_modified,
        workspace_root: root,
    }
}

/// Records each entry's workspace root: `roots[i]` is what the search
/// ([`find_workspace_root`] on the files found) gives for `entries[i]`.
pub fn annotate_workspace_roots(entries: &mut Vec<Entry>, roots: Vec<Option<String>>)
    requires
        old(entries).len() == roots.len(),
    ensures
        final(entries).len() == old(entries).len(),
        forall|i: int|
            0 <= i < old(entries).len() ==> #[trigger] final(entries)@[i] == with_root(
                old(entries)@[i],
                roots@[i],
            ),
{
    let ghost orig = entries@;
    let ghost all_roots = roots@;
    let mut rest: Vec<Entry> = Vec::new();
    std::mem::swap(&mut rest, entries);
    let mut rest_roots = roots;
    let mut out: Vec<Entry> = Vec::new();
    let ghost mut n: int = 0;
    assert(orig.skip(0) =~= orig);
    assert(all_roots.skip(0) =~= all_roots);
    while rest.len() > 0
        invariant
            0 <= n <= orig.len(),
            orig.len() == all_roots.len(),
            rest@ == orig.skip(n),
            rest_roots@ == all_roots.skip(n),
            out@.len() == n,
            forall|i: int| 0 <= i < n ==> #[trigger] out@[i] == with_root(orig[i], all_roots[i]),
        decreases rest@.len(),
    {
        let mut e = rest.remove(0);
        let r = rest_roots.remove(0);
        assert(rest@ =~= orig.skip(n + 1));
        assert(rest_roots@ =~= all_roots.skip(n + 1));
        e.workspace_root = r;
        out.push(e);
        proof {
            n = n + 1;
        }
    }
    *entries = out;
}

/// The marker files whose presence makes a directory a workspace root.
pub open spec fn workspace_markers() -> Seq<Seq<char>> {
    seq!["pnpm-workspace.yaml"@, "lerna.json"@]
}

/// The marker files of the directory `dir`, in the order they are checked.
pub fn workspace_marker_paths(dir: &str) -> (r: Vec<String>)
    ensures
        string_views(r@) == workspace_markers().map_values(|m: Seq<char>| join_of(dir@, m)),
{
    let mut r: Vec<String> = Vec::new();
    r.push(join(dir, "pnpm-workspace.yaml"));
    r.push(join(dir, "lerna.json"));
    assert(string_views(r@) =~= workspace_markers().map_values(|m: Seq<char>| join_of(dir@, m)));
    r
}

/// The `package.json` of the directory `dir`.
pub fn package_json_path(dir: &str) -> (r: String)
    ensures
        r@ == join_of(dir@, "package.json"@),
{
    join(dir, "package.json")
}

/// `t` holds `pat` somewhere.
pub open spec fn contains_text(t: Seq<char>, pat: Seq<char>) -> bool {
    exists|i: int| 0 <= i && i + pat.len() <= t.len() && #[trigger] t.subrange(i, i + pat.len()) == pat
}

/// Whether a directory is a workspace root: it holds a marker file, or a
/// `package.json` whose text contains `"workspaces"`.
pub open spec fn is_workspace_dir(has_marker: bool, package_json: Option<Seq<char>>) -> bool {
    has_marker || match package_json {
        Some(t) => contains_text(t, "\"workspaces\""@),
        None => false,
    }
}

fn text_contains(t: &Vec<char>, pat: &Vec<char>) -> (r: bool)
    ensures
        r == contains_text(t@, pat@),
{
    if pat.len() > t.len() {
        return false;
    }
    if pat.len() == 0 {
        assert(t@.subrange(0, 0 + pat@.len() as int) =~= pat@);
        return true;
    }
    let tl = t.len();
    let pl = pat.len();
    let last = tl - pl;
    let mut i: usize = 0;
    while i <= last
        invariant
            tl == t@.len(),
            pl == pat@.len(),
            pl >= 1,
            pat@.len() <= t@.len(),
            last == t@.len() - pat@.len(),
            i <= last + 1,
            forall|k: int| 0 <= k < i ==> #[trigger] t@.subrange(k, k + pat@.len()) != pat@,
        decreases last + 1 - i,
    {
        if range_eq(t, i, i + pl, pat) {
            return true;
        }
        i = i + 1;
    }
    false
}

/// The directories the search for a workspace root looks at, from `dir`
/// upwards: each is followed by its parent, and the search ends with the
/// scan root (a path equal to `scan_root` as `Path` values) or the top.
pub open spec fn search_dirs(dir: Seq<char>, scan_root: Seq<char>) -> Seq<Seq<char>>
    decreases dir.len(),
{
    if path_components(dir) == path_components(scan_root) {
        seq![dir]
    } else {
        match parent_of(dir) {
            Some(p) => {
                proof {
                    lemma_parent_shorter(dir);
                }
                seq![dir] + search_dirs(p, scan_root)
            },
            None => seq![dir],
        }
    }
}

/// The directories searched for the workspace root of an artifact: from
/// its parent upwards; none when it has no parent.
pub open spec fn search_dirs_of(artifact: Seq<char>, scan_root: Seq<char>) -> Seq<Seq<char>> {
    match parent_of(artifact) {
        Some(d) => search_dirs(d, scan_root),
        None => seq![],
    }
}

/// The text read from the file at `path`, if `pkgs` holds it (the first
/// pair naming that path).
pub open spec fn package_text(pkgs: Seq<(Seq<char>, Seq<char>)>, path: Seq<char>) -> Option<Seq<char>>
    decreases pkgs.len(),
{
    if pkgs.len() == 0 {
        None
    } else if pkgs[0].0 == path {
        Some(pkgs[0].1)
    } else {
        package_text(pkgs.drop_first(), path)
    }
}

/// The texts of path/content pairs.
pub open spec fn pair_views(v: Seq<(String, String)>) -> Seq<(Seq<char>, Seq<char>)> {
    v.map_values(|x: (String, String)| (x.0@, x.1@))
}

/// Whether `dir` is a workspace root, given the marker files that exist
/// (`markers`) and the `package.json` files that could be read (`pkgs`).
pub open spec fn workspace_at(
    dir: Seq<char>,
    markers: Seq<Seq<char>>,
    pkgs: Seq<(Seq<char>, Seq<char>)>,
) -> bool {
    is_workspace_dir(
        markers.contains(join_of(dir, "pnpm-workspace.yaml"@)) || markers.contains(
            join_of(dir, "lerna.json"@),
        ),
        package_text(pkgs, join_of(dir, "package.json"@)),
    )
}

/// The first of `dirs` that is a workspace root.
pub open spec fn first_workspace(
    dirs: Seq<Seq<char>>,
    markers: Seq<Seq<char>>,
    pkgs: Seq<(Seq<char>, Seq<char>)>,
) -> Option<Seq<char>>
    decreases dirs.len(),
{
    if dirs.len() == 0 {
        None
    } else if workspace_at(dirs[0], markers, pkgs) {
        Some(dirs[0])
    } else {
        first_workspace(dirs.drop_first(), markers, pkgs)
    }
}

/// The workspace root of an artifact: the nearest directory, from the
/// artifact's parent up to the scan root, that holds a workspace marker or a
/// `package.json` with a `"workspaces"` field.
pub open spec fn workspace_root_of(
    artifact: Seq<char>,
    scan_root: Seq<char>,
    markers: Seq<Seq<char>>,
    pkgs: Seq<(Seq<char>, Seq<char>)>,
) -> Option<Seq<char>> {
    first_workspace(search_dirs_of(artifact, scan_root), markers, pkgs)
}

/// The directories the search for the workspace root of `artifact` looks
/// at, in order: the front end checks their marker files and reads their
/// `package.json` for [`find_workspace_root`].
pub fn workspace_search_dirs(artifact: &str, scan_root: &str) -> (r: Vec<String>)
    ensures
        string_views(r@) == search_dirs_of(artifact@, scan_root@),
{
    let mut out: Vec<String> = Vec::new();
    let mut dir = match parent(artifact) {
        Some(d) => d,
        None => {
            assert(string_views(out@) =~= Seq::<Seq<char>>::empty());
            return out;
        },
    };
    let ghost start = dir@;
    assert(string_views(out@) + search_dirs(dir@, scan_root@) =~= search_dirs(start, scan_root@));
    loop
        invariant_except_break
            string_views(out@) + search_dirs(dir@, scan_root@) == search_dirs(start, scan_root@),
        ensures
            string_views(out@) == search_dirs(start, scan_root@),
        decreases dir@.len(),
    {
        let ghost d = dir@;
        let ghost before = string_views(out@);
        let stop = same_path(dir.as_str(), scan_root);
        let next = if stop {
            None
        } else {
            parent(dir.as_str())
        };
        out.push(dir.clone());
        assert(string_views(out@) =~= before.push(d));
        match next {
            Some(p) => {
                proof {
                    lemma_parent_shorter(d);
                    assert(search_dirs(d, scan_root@) == seq![d] + search_dirs(p@, scan_root@));
                    assert(before.push(d) + search_dirs(p@, scan_root@) =~= before + (seq![d]
                        + search_dirs(p@, scan_root@)));
                }
                dir = p;
            },
            None => {
                assert(search_dirs(d, scan_root@) == seq![d]);
                assert(before + seq![d] =~= before.push(d));
                break ;
            },
        }
    }
    out
}

/// The text of the file at `path` among the ones read, if any.
fn package_text_at(pkgs: &[(String, String)], path: &Vec<char>) -> (r: Option<Vec<char>>)
    ensures
        match r {
            Some(t) => package_text(pair_views(pkgs@), path@) == Some(t@),
            None => package_text(pair_views(pkgs@), path@) is None,
        },
{
    let ghost all = pair_views(pkgs@);
    let mut i: usize = 0;
    assert(all.skip(0) =~= all);
    while i < pkgs.len()
        invariant
            i <= pkgs@.len(),
            all == pair_views(pkgs@),
            package_text(all, path@) == package_text(all.skip(i as int), path@),
        decreases pkgs@.len() - i,
    {
        assert(all.skip(i as int).drop_first() =~= all.skip(i + 1));
        assert(all.skip(i as int)[0] == all[i as int]);
        let k = chars_of(pkgs[i].0.as_str());
        if chars_eq(&k, path) {
            return Some(chars_of(pkgs[i].1.as_str()));
        }
        i = i + 1;
    }
    None
}

/// Whether `dir` is a workspace root (see [`workspace_at`]).
fn is_workspace_at(dir: &str, markers: &[String], pkgs: &[(String, String)]) -> (r: bool)
    ensures
        r == workspace_at(dir@, string_views(markers@), pair_views(pkgs@)),
{
    proof {
        reveal_strlit("\"workspaces\"");
    }
    let a = chars_of(join(dir, "pnpm-workspace.yaml").as_str());
    let b = chars_of(join(dir, "lerna.json").as_str());
    if list_contains(markers, &a) || list_contains(markers, &b) {
        return true;
    }
    let pj = chars_of(join(dir, "package.json").as_str());
    match package_text_at(pkgs, &pj) {
        Some(t) => text_contains(&t, &chars_of("\"workspaces\"")),
        None => false,
    }
}

/// The workspace root of `artifact` in a scan of `scan_root` (see
/// [`workspace_root_of`]): `markers` lists the marker files that exist and
/// `package_jsons` the `package.json` files that could be read, with their
/// text, among those of [`workspace_search_dirs`].
pub fn find_workspace_root(
    artifact: &str,
    scan_root: &str,
    markers: &[String],
    package_jsons: &[(String, String)],
) -> (r: Option<String>)
    ensures
        opt_view(r) == workspace_root_of(
            artifact@,
            scan_root@,
            string_views(markers@),
            pair_views(package_jsons@),
        ),
{
    let dirs = workspace_search_dirs(artifact, scan_root);
    let ghost ds = string_views(dirs@);
    let ghost m = string_views(markers@);
    let ghost pk = pair_views(package_jsons@);
    let mut i: usize = 0;
    assert(ds.skip(0) =~= ds);
    while i < dirs.len()
        invariant
            i <= dirs@.len(),
            ds == string_views(dirs@),
            ds == search_dirs_of(artifact@, scan_root@),
            m == string_views(markers@),
            pk == pair_views(package_jsons@),
            first_workspace(ds, m, pk) == first_workspace(ds.skip(i as int), m, pk),
        decreases dirs@.len() - i,
    {
        assert(ds.skip(i as int).drop_first() =~= ds.skip(i + 1));
        assert(ds.skip(i as int)[0] == ds[i as int]);
        if is_workspace_at(dirs[i].as_str(), markers, package_jsons) {
            return Some(dirs[i].clone());
        }
        i = i + 1;
    }
    None
}

} // verus!
