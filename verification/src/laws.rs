//! Properties of the library as a whole, over the specs that the functions'
//! contracts use.
use vstd::prelude::*;
use crate::model::{ArtifactKind, Entry, WorkspaceGroup, slug_of, lemma_slug_round_trip};
use crate::commands::kind_named;
use crate::scanner::{
    artifact_rules, classification, classify_from, probe_list, probes_upto, rule_matches,
    some_present, marker_probes, MarkerSpec,
};
use crate::deleter::{deletable_names, is_deletable};
use crate::paths::{body_parts, file_name_of, has_cur_dir, has_root, head_len, join_of, parent_of, part_state, path_components, trim_tail, drop_segment, lemma_trim_tail_prefix, lemma_drop_segment_prefix, lemma_parent_shorter};
use crate::ignorefile::{patterns_of_lines, trim_end_slashes};
use crate::workspace::{
    entry_key, first_workspace, grouping_of, group_of, search_dirs, search_dirs_of, sum_sizes,
    with_key, with_root, workspace_at, workspace_root_of,
};
use crate::pathorder::{opt_key_lt, opt_path_key, lemma_opt_irreflexive};

verus! {

/// Looking a slug up gives back the kind it is the slug of.
pub proof fn law_slug_lookup_inverts_slug(k: ArtifactKind)
    ensures
        kind_named(slug_of(k)) == Some(k),
{
    assert(exists|k2: ArtifactKind| slug_of(k2) == slug_of(k));
    let k2 = choose|k2: ArtifactKind| slug_of(k2) == slug_of(k);
    lemma_slug_round_trip(k, k2);
}

proof fn lemma_rule_names_deletable(i: int)
    requires
        0 <= i < artifact_rules().len(),
    ensures
        deletable_names().contains(artifact_rules()[i].name),
{
    let names = deletable_names();
    let n = artifact_rules()[i].name;
    if i == 0 {
        assert(names[0] == n);
    } else if i == 1 {
        assert(names[1] == n);
    } else if i == 2 {
        assert(names[2] == n);
    } else if i == 3 {
        assert(names[3] == n);
    } else if i == 4 {
        assert(names[4] == n);
    } else if i == 5 {
        assert(names[5] == n);
    } else if i == 6 {
        assert(names[6] == n);
    } else if i == 7 || i == 8 {
        assert(names[7] == n);
    } else if i == 9 {
        assert(names[8] == n);
    } else if i == 10 {
        assert(names[9] == n);
    } else if i == 11 {
        assert(names[10] == n);
    } else {
        assert(names[11] == n);
    }
}

proof fn lemma_classified_rule(i: int, path: Seq<char>, present: Seq<Seq<char>>)
    requires
        classify_from(i, path, present) is Some,
    ensures
        exists|j: int|
            i <= j < artifact_rules().len() && rule_matches(artifact_rules()[j], path, present)
                && classify_from(i, path, present) == Some(artifact_rules()[j].kind),
    decreases artifact_rules().len() - i,
{
    if 0 <= i < artifact_rules().len() && !rule_matches(artifact_rules()[i], path, present) {
        lemma_classified_rule(i + 1, path, present);
    }
}

/// Whatever the scanner classifies as an artifact, deletion accepts: every
/// artifact name is on the deletion allowlist.
pub proof fn law_classified_is_deletable(path: Seq<char>, present: Seq<Seq<char>>)
    requires
        classification(path, present) is Some,
    ensures
        is_deletable(path),
{
    lemma_classified_rule(0, path, present);
    let j = choose|j: int|
        0 <= j < artifact_rules().len() && rule_matches(artifact_rules()[j], path, present)
            && classification(path, present) == Some(artifact_rules()[j].kind);
    lemma_rule_names_deletable(j);
}

/// Ambiguous names are only matched when a marker file confirms them: a
/// `target` is Cargo output only next to a `Cargo.toml`, Maven output only
/// next to a `pom.xml`; a `build` is Gradle output only next to a
/// `build.gradle(.kts)`; a `dist` only next to a `package.json`; a
/// `venv`/`.venv` only with a `pyvenv.cfg` inside.
pub proof fn law_markers_confirm(path: Seq<char>, present: Seq<Seq<char>>)
    ensures
        classification(path, present) == Some(ArtifactKind::RustTarget) ==> (parent_of(path) matches Some(p)
            && present.contains(join_of(p, "Cargo.toml"@))),
        classification(path, present) == Some(ArtifactKind::JavaMavenTarget) ==> (parent_of(path) matches Some(p)
            && present.contains(join_of(p, "pom.xml"@))),
        classification(path, present) == Some(ArtifactKind::JavaGradleBuild) ==> (parent_of(path) matches Some(p)
            && (present.contains(join_of(p, "build.gradle"@)) || present.contains(
            join_of(p, "build.gradle.kts"@),
        ))),
        classification(path, present) == Some(ArtifactKind::GenericDist) ==> (parent_of(path) matches Some(p)
            && present.contains(join_of(p, "package.json"@))),
        classification(path, present) == Some(ArtifactKind::PythonVenv) ==> present.contains(
            join_of(path, "pyvenv.cfg"@),
        ),
{
    if classification(path, present) is Some {
        lemma_classified_rule(0, path, present);
        let j = choose|j: int|
            0 <= j < artifact_rules().len() && rule_matches(artifact_rules()[j], path, present)
                && classification(path, present) == Some(artifact_rules()[j].kind);
        let r = artifact_rules()[j];
        match r.marker {
            MarkerSpec::ParentHasAny(files) => {
                let p = parent_of(path)->0;
                let k = choose|k: int| 0 <= k < files.len() && present.contains(join_of(p, #[trigger] files[k]));
                if j == 9 {
                    assert(files[k] == "build.gradle"@ || files[k] == "build.gradle.kts"@);
                }
            },
            MarkerSpec::SelfHasAny(files) => {
                let k = choose|k: int| 0 <= k < files.len() && present.contains(join_of(path, #[trigger] files[k]));
            },
            MarkerSpec::NameOnly => {},
        }
    }
}

proof fn lemma_probes_upto_contains(dir: Seq<char>, n: int, i: int, x: Seq<char>)
    requires
        0 <= i < n <= artifact_rules().len(),
        file_name_of(dir) == Some(artifact_rules()[i].name),
        marker_probes(dir, artifact_rules()[i].marker).contains(x),
    ensures
        probes_upto(dir, n).contains(x),
    decreases n,
{
    let prev = probes_upto(dir, n - 1);
    let r = artifact_rules()[n - 1];
    if i < n - 1 {
        lemma_probes_upto_contains(dir, n - 1, i, x);
        if file_name_of(dir) == Some(r.name) {
            let m = choose|m: int| 0 <= m < prev.len() && prev[m] == x;
            assert((prev + marker_probes(dir, r.marker))[m] == x);
        }
    } else {
        let mp = marker_probes(dir, r.marker);
        let m = choose|m: int| 0 <= m < mp.len() && mp[m] == x;
        assert((prev + mp)[prev.len() + m] == x);
    }
}

proof fn lemma_rule_matches_on_probes(
    i: int,
    path: Seq<char>,
    p1: Seq<Seq<char>>,
    p2: Seq<Seq<char>>,
)
    requires
        0 <= i < artifact_rules().len(),
        forall|x: Seq<char>| #[trigger] probe_list(path).contains(x) ==> (p1.contains(x) <==> p2.contains(x)),
    ensures
        rule_matches(artifact_rules()[i], path, p1) == rule_matches(artifact_rules()[i], path, p2),
{
    let r = artifact_rules()[i];
    if file_name_of(path) == Some(r.name) {
        match r.marker {
            MarkerSpec::ParentHasAny(files) => {
                if parent_of(path) is Some {
                    let p = parent_of(path)->0;
                    assert forall|k: int| 0 <= k < files.len() implies (p1.contains(
                        join_of(p, #[trigger] files[k]),
                    ) <==> p2.contains(join_of(p, files[k]))) by {
                        let mp = marker_probes(path, r.marker);
                        assert(mp[k] == join_of(p, files[k]));
                        lemma_probes_upto_contains(path, artifact_rules().len() as int, i, join_of(p, files[k]));
                        assert(probe_list(path).contains(join_of(p, files[k])));
                    }
                }
            },
            MarkerSpec::SelfHasAny(files) => {
                assert forall|k: int| 0 <= k < files.len() implies (p1.contains(
                    join_of(path, #[trigger] files[k]),
                ) <==> p2.contains(join_of(path, files[k]))) by {
                    let mp = marker_probes(path, r.marker);
                    assert(mp[k] == join_of(path, files[k]));
                    lemma_probes_upto_contains(path, artifact_rules().len() as int, i, join_of(path, files[k]));
                    assert(probe_list(path).contains(join_of(path, files[k])));
                }
            },
            MarkerSpec::NameOnly => {},
        }
    }
}

proof fn lemma_classify_from_on_probes(
    i: int,
    path: Seq<char>,
    p1: Seq<Seq<char>>,
    p2: Seq<Seq<char>>,
)
    requires
        forall|x: Seq<char>| #[trigger] probe_list(path).contains(x) ==> (p1.contains(x) <==> p2.contains(x)),
    ensures
        classify_from(i, path, p1) == classify_from(i, path, p2),
    decreases artifact_rules().len() - i,
{
    if 0 <= i < artifact_rules().len() {
        lemma_rule_matches_on_probes(i, path, p1, p2);
        lemma_classify_from_on_probes(i + 1, path, p1, p2);
    }
}

/// Only the files that `marker_probe_paths` lists matter: two views of the
/// file system that agree on them classify a directory alike.
pub proof fn law_classification_depends_on_probes(
    path: Seq<char>,
    present1: Seq<Seq<char>>,
    present2: Seq<Seq<char>>,
)
    requires
        forall|x: Seq<char>|
            #[trigger] probe_list(path).contains(x) ==> (present1.contains(x) <==> present2.contains(x)),
    ensures
        classification(path, present1) == classification(path, present2),
{
    lemma_classify_from_on_probes(0, path, present1, present2);
}

proof fn lemma_patterns_shape(lines: Seq<Seq<char>>)
    ensures
        forall|i: int|
            0 <= i < patterns_of_lines(lines).len() ==> !(#[trigger] patterns_of_lines(lines)[i].len()
                > 0 && patterns_of_lines(lines)[i].last() == '/'),
    decreases lines.len(),
{
    if lines.len() > 0 {
        lemma_patterns_shape(lines.drop_last());
        let t = crate::text::trim(lines.last());
        lemma_trim_end_slashes(t);
        let rest = patterns_of_lines(lines.drop_last());
        let all = patterns_of_lines(lines);
        assert forall|i: int| 0 <= i < all.len() implies !(#[trigger] all[i].len() > 0
            && all[i].last() == '/') by {
            if i < rest.len() {
                assert(all[i] == rest[i]);
            }
        }
    }
}

proof fn lemma_trim_end_slashes(s: Seq<char>)
    ensures
        !(trim_end_slashes(s).len() > 0 && trim_end_slashes(s).last() == '/'),
    decreases s.len(),
{
    if s.len() > 0 && s.last() == '/' {
        lemma_trim_end_slashes(s.drop_last());
    }
}

/// No pattern read from an ignore file ends with `/`.
pub proof fn law_patterns_have_no_trailing_slash(content: Seq<char>)
    ensures
        forall|i: int|
            0 <= i < crate::ignorefile::patterns_of(content).len() ==> !(
            #[trigger] crate::ignorefile::patterns_of(content)[i].len() > 0
                && crate::ignorefile::patterns_of(content)[i].last() == '/'),
{
    lemma_patterns_shape(crate::text::line_pieces(content));
}

/// Sum over keys of the sizes of the entries with each key.
pub open spec fn total_over(es: Seq<Entry>, keys: Seq<Option<Seq<int>>>) -> int
    decreases keys.len(),
{
    if keys.len() == 0 {
        0
    } else {
        total_over(es, keys.drop_last()) + sum_sizes(with_key(es, keys.last()))
    }
}

/// Sum of the group totals.
pub open spec fn group_totals(gs: Seq<(Option<String>, WorkspaceGroup)>) -> int
    decreases gs.len(),
{
    if gs.len() == 0 {
        0
    } else {
        group_totals(gs.drop_last()) + gs.last().1.total_size_bytes
    }
}

spec fn keys_of(gs: Seq<(Option<String>, WorkspaceGroup)>) -> Seq<Option<Seq<int>>> {
    gs.map_values(|g: (Option<String>, WorkspaceGroup)| opt_path_key(g.0))
}

proof fn lemma_total_over_push(es: Seq<Entry>, e: Entry, keys: Seq<Option<Seq<int>>>)
    requires
        forall|i: int, j: int| 0 <= i < j < keys.len() ==> #[trigger] keys[i] != #[trigger] keys[j],
    ensures
        total_over(es.push(e), keys) == total_over(es, keys) + if keys.contains(entry_key(e)) {
            e.size_bytes as int
        } else {
            0
        },
    decreases keys.len(),
{
    if keys.len() > 0 {
        let rest = keys.drop_last();
        lemma_total_over_push(es, e, rest);
        assert(es.push(e).drop_last() =~= es);
        let k = keys.last();
        let wk = with_key(es, k);
        assert(wk.push(e).drop_last() =~= wk);
        if keys.contains(entry_key(e)) {
            let m = choose|m: int| 0 <= m < keys.len() && keys[m] == entry_key(e);
            if m < keys.len() - 1 {
                assert(rest[m] == entry_key(e));
                assert(keys[m] != keys[keys.len() - 1]);
            } else {
                if rest.contains(entry_key(e)) {
                    let m2 = choose|m2: int| 0 <= m2 < rest.len() && rest[m2] == entry_key(e);
                    assert(keys[m2] == keys[keys.len() - 1]);
                }
            }
        } else {
            if rest.contains(entry_key(e)) {
                let m2 = choose|m2: int| 0 <= m2 < rest.len() && rest[m2] == entry_key(e);
                assert(keys[m2] == entry_key(e));
            }
        }
    }
}

proof fn lemma_total_over_all(es: Seq<Entry>, keys: Seq<Option<Seq<int>>>)
    requires
        forall|i: int, j: int| 0 <= i < j < keys.len() ==> #[trigger] keys[i] != #[trigger] keys[j],
        forall|m: int| 0 <= m < es.len() ==> keys.contains(entry_key(#[trigger] es[m])),
    ensures
        total_over(es, keys) == sum_sizes(es),
    decreases es.len(),
{
    if es.len() == 0 {
        lemma_total_over_empty(es, keys);
    } else {
        let p = es.drop_last();
        let e = es.last();
        assert(p.push(e) =~= es);
        assert forall|m: int| 0 <= m < p.len() implies keys.contains(entry_key(#[trigger] p[m])) by {
            assert(p[m] == es[m]);
        }
        lemma_total_over_all(p, keys);
        assert(keys.contains(entry_key(es[es.len() - 1])));
        lemma_total_over_push(p, e, keys);
    }
}

proof fn lemma_total_over_empty(es: Seq<Entry>, keys: Seq<Option<Seq<int>>>)
    requires
        es.len() == 0,
    ensures
        total_over(es, keys) == 0,
    decreases keys.len(),
{
    if keys.len() > 0 {
        lemma_total_over_empty(es, keys.drop_last());
    }
}

proof fn lemma_group_totals(es: Seq<Entry>, gs: Seq<(Option<String>, WorkspaceGroup)>)
    requires
        forall|i: int| 0 <= i < gs.len() ==> group_of(#[trigger] gs[i].0, gs[i].1, es),
    ensures
        group_totals(gs) == total_over(es, keys_of(gs)),
    decreases gs.len(),
{
    if gs.len() > 0 {
        let rest = gs.drop_last();
        assert forall|i: int| 0 <= i < rest.len() implies group_of(#[trigger] rest[i].0, rest[i].1, es) by {
            assert(rest[i] == gs[i]);
        }
        lemma_group_totals(es, rest);
        assert(keys_of(gs).drop_last() =~= keys_of(rest));
        assert(group_of(gs[gs.len() - 1].0, gs[gs.len() - 1].1, es));
    }
}

/// Grouping by workspace loses no bytes: the group totals add up to the
/// total size of all entries (each entry lands in exactly one group).
pub proof fn law_group_totals_add_up(es: Seq<Entry>, gs: Seq<(Option<String>, WorkspaceGroup)>)
    requires
        grouping_of(es, gs),
    ensures
        group_totals(gs) == sum_sizes(es),
{
    let keys = keys_of(gs);
    assert forall|i: int, j: int| 0 <= i < j < keys.len() implies #[trigger] keys[i] != #[trigger] keys[j] by {
        assert(opt_key_lt(opt_path_key(gs[i].0), opt_path_key(gs[j].0)));
        lemma_opt_irreflexive(keys[i]);
    }
    assert forall|m: int| 0 <= m < es.len() implies keys.contains(entry_key(#[trigger] es[m])) by {
        let i = choose|i: int| 0 <= i < gs.len() && opt_path_key(#[trigger] gs[i].0) == entry_key(es[m]);
        assert(keys[i] == entry_key(es[m]));
    }
    lemma_group_totals(es, gs);
    lemma_total_over_all(es, keys);
}

/// A single normal path component: nonempty, without separators, neither
/// `.` nor `..`.
pub open spec fn plain_name(m: Seq<char>) -> bool {
    &&& m.len() > 0
    &&& forall|i: int| 0 <= i < m.len() ==> #[trigger] m[i] != '/'
    &&& m != seq!['.']
    &&& m != crate::paths::dot_dot()
}

proof fn lemma_part_state_append(x: Seq<char>, m: Seq<char>)
    requires
        forall|i: int| 0 <= i < m.len() ==> #[trigger] m[i] != '/',
    ensures
        part_state(x + m) == (part_state(x).0, part_state(x).1 + m),
    decreases m.len(),
{
    if m.len() == 0 {
        assert(x + m =~= x);
        assert(part_state(x).1 + m =~= part_state(x).1);
    } else {
        let m2 = m.drop_last();
        lemma_part_state_append(x, m2);
        assert((x + m).drop_last() =~= x + m2);
        assert((x + m).last() == m.last());
        assert(part_state(x).1 + m2 + seq![m.last()] =~= part_state(x).1 + m);
        assert((part_state(x).1 + m2).push(m.last()) =~= part_state(x).1 + m);
    }
}

/// Every body part is a nonempty text without separators, other than `.`.
proof fn lemma_part_state_parts(p: Seq<char>)
    ensures
        forall|i: int|
            0 <= i < part_state(p).0.len() ==> #[trigger] part_state(p).0[i].len() > 0
                && part_state(p).0[i] != seq!['.'] && forall|k: int|
                0 <= k < part_state(p).0[i].len() ==> part_state(p).0[i][k] != '/',
        forall|k: int| 0 <= k < part_state(p).1.len() ==> #[trigger] part_state(p).1[k] != '/',
    decreases p.len(),
{
    if p.len() > 0 {
        lemma_part_state_parts(p.drop_last());
        let prev = part_state(p.drop_last());
        if p.last() != '/' {
            assert forall|k: int| 0 <= k < part_state(p).1.len() implies #[trigger] part_state(p).1[k] != '/' by {
                if k < prev.1.len() {
                    assert(part_state(p).1[k] == prev.1[k]);
                }
            }
        } else {
            let d = part_state(p).0;
            assert forall|i: int| 0 <= i < d.len() implies #[trigger] d[i].len() > 0 && d[i] != seq!['.']
                && forall|k: int| 0 <= k < d[i].len() ==> d[i][k] != '/' by {
                if i < prev.0.len() {
                    assert(d[i] == prev.0[i]);
                }
            }
        }
    }
}

proof fn lemma_body_parts_plain(p: Seq<char>)
    ensures
        forall|i: int|
            0 <= i < body_parts(p).len() ==> #[trigger] body_parts(p)[i].len() > 0
                && body_parts(p)[i] != seq!['.'] && forall|k: int|
                0 <= k < body_parts(p)[i].len() ==> body_parts(p)[i][k] != '/',
{
    lemma_part_state_parts(p);
    let st = part_state(p);
    let b = body_parts(p);
    assert forall|i: int| 0 <= i < b.len() implies #[trigger] b[i].len() > 0 && b[i] != seq!['.']
        && forall|k: int| 0 <= k < b[i].len() ==> b[i][k] != '/' by {
        if i < st.0.len() {
            assert(b[i] == st.0[i]);
        }
    }
}

/// The file name of a path is a plain name.
proof fn lemma_file_name_plain(p: Seq<char>)
    requires
        file_name_of(p) is Some,
    ensures
        plain_name(file_name_of(p)->0),
{
    lemma_body_parts_plain(p);
    let b = body_parts(p);
    assert(b[b.len() - 1] == b.last());
}

/// A plain name is a path of that one component.
proof fn lemma_plain_components(m: Seq<char>)
    requires
        plain_name(m),
    ensures
        path_components(m) == seq![m],
        body_parts(m) == seq![m],
        head_len(m) == 0,
{
    lemma_part_state_append(Seq::<char>::empty(), m);
    assert(Seq::<char>::empty() + m =~= m);
    assert(part_state(Seq::<char>::empty()).1 + m =~= m);
    assert(!has_root(m));
    assert(!has_cur_dir(m)) by {
        if m.len() == 1 && m[0] == '.' {
            assert(m =~= seq!['.']);
        }
    }
    assert(path_components(m) =~= seq![m]);
}

/// Dropping the plain last segment of `b + m` leaves `b`.
proof fn lemma_drop_segment_plain(b: Seq<char>, m: Seq<char>, f: nat)
    requires
        forall|i: int| 0 <= i < m.len() ==> #[trigger] m[i] != '/',
        b.len() == 0 || b.last() == '/',
        b.len() == 0 ==> f == 0,
        b.len() > 0 ==> b.len() >= f,
    ensures
        drop_segment(b + m, f) == b,
    decreases m.len(),
{
    if m.len() == 0 {
        assert(b + m =~= b);
    } else {
        lemma_drop_segment_plain(b, m.drop_last(), f);
        assert((b + m).drop_last() =~= b + m.drop_last());
        assert((b + m).last() == m.last());
    }
}

/// The parent of a path, when it has a file name: a trimmed prefix of it,
/// with the same head.
proof fn lemma_parent_shape(p: Seq<char>)
    requires
        body_parts(p).len() > 0,
    ensures
        parent_of(p) is Some,
        head_len(parent_of(p)->0) == head_len(p),
        parent_of(p)->0.len() >= head_len(p),
        trim_tail(parent_of(p)->0, head_len(p)) == parent_of(p)->0,
{
    let f = head_len(p);
    let a = trim_tail(p, f);
    let b = drop_segment(a, f);
    let q = trim_tail(b, f);
    assert(p.len() > 0) by {
        if p.len() == 0 {
            assert(part_state(p) == (Seq::<Seq<char>>::empty(), Seq::<char>::empty()));
        }
    }
    lemma_trim_tail_prefix(p, f);
    lemma_drop_segment_prefix(a, f);
    lemma_trim_tail_prefix(b, f);
    assert(q =~= p.take(q.len() as int)) by {
        assert(b =~= a.take(b.len() as int));
        assert(a =~= p.take(a.len() as int));
    }
    assert(q.len() >= f);
    // The head of the prefix is the head of the path.
    if has_root(p) {
        assert(q[0] == p[0]);
    } else if has_cur_dir(p) {
        assert(q[0] == p[0]);
        if q.len() >= 2 {
            assert(q[1] == p[1]);
        }
    } else {
        if q.len() > 0 {
            assert(q[0] == p[0]);
            if q.len() >= 2 {
                assert(q[1] == p[1]);
            }
        }
    }
    // Trimming again changes nothing.
    if q.len() > f {
        assert(trim_tail(q, f) == q);
    }
}

/// `join(q, m)` for a trimmed parent `q` and a plain name `m` has parent `q`.
proof fn lemma_parent_of_join(q: Seq<char>, m: Seq<char>, f: nat)
    requires
        plain_name(m),
        head_len(q) == f,
        q.len() >= f,
        trim_tail(q, f) == q,
    ensures
        parent_of(join_of(q, m)) == Some(q),
{
    let j = join_of(q, m);
    assert(!has_root(m));
    lemma_plain_components(m);
    if q.len() == 0 {
        assert(j == m);
        assert(body_parts(j).len() > 0);
        lemma_drop_segment_plain(q, m, 0);
        assert(q + m =~= m);
        assert(trim_tail(j, 0) == j) by {
            if m.last() == '.' {
                assert(m.len() >= 2) by {
                    if m.len() == 1 {
                        assert(m =~= seq!['.']);
                    }
                }
                assert(m[m.len() - 2] != '/');
            }
        }
    } else {
        // `b` is `q` followed by a separator (or the root itself).
        let b = if q.last() != '/' { q.push('/') } else { q };
        assert(j =~= b + m);
        if q.last() == '/' {
            // A trimmed path ending in a separator is the root.
            assert(q.len() <= f) by {
                if q.len() > f {
                    lemma_trim_tail_prefix(q.drop_last(), f);
                }
            }
            assert(has_root(q));
        }
        // The body of `j` ends with `m`.
        lemma_part_state_append(b, m);
        assert(b.len() > 0 && b.last() == '/');
        assert(b.drop_last().push('/') =~= b);
        assert(body_parts(j).len() > 0) by {
            let st = part_state(b);
            assert(st.1 == Seq::<char>::empty());
            assert(st.1 + m =~= m);
            assert(m != seq!['.']);
        }
        // The head of `j` is the head of `q`.
        assert(j[0] == q[0]);
        if q.len() >= 2 {
            assert(j[1] == q[1]);
        }
        assert(head_len(j) == f) by {
            if q.len() == 1 {
                if q.last() != '/' {
                    assert(j[1] == '/');
                }
            }
        }
        assert(trim_tail(j, f) == j) by {
            assert(j.last() == m.last());
            if m.last() == '.' {
                assert(m.len() >= 2) by {
                    if m.len() == 1 {
                        assert(m =~= seq!['.']);
                    }
                }
                assert(j[j.len() - 2] == m[m.len() - 2]);
            }
        }
        lemma_drop_segment_plain(b, m, f);
        if q.last() != '/' {
            assert(b.drop_last() =~= q);
        }
    }
}

/// The archive's file name is a plain name.
proof fn lemma_archive_name_plain(p: Seq<char>)
    ensures
        plain_name(crate::deleter::archive_name_of(p)),
{
    reveal_strlit("artifact");
    reveal_strlit("project");
    reveal_strlit("-");
    reveal_strlit("-backup.tar.gz");
    let dir = crate::deleter::archive_dir_of(p);
    let artifact_full = match file_name_of(p) {
        Some(n) => n,
        None => "artifact"@,
    };
    let artifact = crate::deleter::trim_leading_dots(artifact_full);
    let project = match file_name_of(dir) {
        Some(n) => n,
        None => "project"@,
    };
    if file_name_of(p) is Some {
        lemma_file_name_plain(p);
    }
    if file_name_of(dir) is Some {
        lemma_file_name_plain(dir);
    }
    lemma_trim_leading_dots_sub(artifact_full);
    let name = crate::deleter::archive_name_of(p);
    assert(name =~= project + "-"@ + artifact + "-backup.tar.gz"@);
    assert forall|i: int| 0 <= i < name.len() implies #[trigger] name[i] != '/' by {
        if i < project.len() {
            assert(name[i] == project[i]);
        } else if i == project.len() {
        } else if i < project.len() + 1 + artifact.len() {
            assert(name[i] == artifact[i - project.len() - 1]);
        } else {
            assert(name[i] == "-backup.tar.gz"@[i - project.len() - 1 - artifact.len()]);
        }
    }
    assert(name.len() >= 14);
}

proof fn lemma_trim_leading_dots_sub(s: Seq<char>)
    ensures
        forall|i: int|
            0 <= i < crate::deleter::trim_leading_dots(s).len() ==> #[trigger] crate::deleter::trim_leading_dots(s)[i]
                == s[i + s.len() - crate::deleter::trim_leading_dots(s).len()],
        crate::deleter::trim_leading_dots(s).len() <= s.len(),
    decreases s.len(),
{
    if s.len() > 0 && s[0] == '.' {
        lemma_trim_leading_dots_sub(s.drop_first());
    }
}

/// What `drop_segment` leaves is no longer than `f` or ends with a
/// separator, and no separator follows it.
proof fn lemma_drop_segment_tail(x: Seq<char>, f: nat)
    ensures
        drop_segment(x, f).len() <= f || drop_segment(x, f).last() == '/',
        forall|j: int| drop_segment(x, f).len() <= j < x.len() ==> x[j] != '/',
    decreases x.len(),
{
    if !(x.len() <= f || x.last() == '/') {
        lemma_drop_segment_tail(x.drop_last(), f);
        lemma_drop_segment_prefix(x.drop_last(), f);
        assert forall|j: int| drop_segment(x, f).len() <= j < x.len() implies x[j] != '/' by {
            if j < x.len() - 1 {
                assert(x[j] == x.drop_last()[j]);
            }
        }
    }
}

/// After a separator (or at the start), a segment without separators is
/// one more body part, unless it is empty or `.`.
proof fn lemma_body_append_segment(b: Seq<char>, m: Seq<char>)
    requires
        b.len() == 0 || b.last() == '/',
        forall|i: int| 0 <= i < m.len() ==> #[trigger] m[i] != '/',
    ensures
        body_parts(b + m) == crate::paths::flush_part(body_parts(b), m),
{
    lemma_part_state_append(b, m);
    assert(part_state(b).1 == Seq::<char>::empty()) by {
        if b.len() == 0 {
            assert(part_state(b) == (Seq::<Seq<char>>::empty(), Seq::<char>::empty()));
        }
    }
    assert(part_state(b).1 + m =~= m);
}

/// Joining a plain name onto a path adds it as the last component.
proof fn lemma_join_components(q: Seq<char>, m: Seq<char>)
    requires
        plain_name(m),
    ensures
        path_components(join_of(q, m)) == path_components(q).push(m),
{
    lemma_plain_components(m);
    let j = join_of(q, m);
    assert(!has_root(m));
    if q.len() == 0 {
        assert(part_state(q) == (Seq::<Seq<char>>::empty(), Seq::<char>::empty()));
        assert(path_components(q) =~= Seq::<Seq<char>>::empty());
        assert(path_components(q).push(m) =~= seq![m]);
    } else {
        let b = if q.last() != '/' {
            q.push('/')
        } else {
            q
        };
        assert(j =~= b + m);
        lemma_body_append_segment(b, m);
        assert(body_parts(b) == body_parts(q)) by {
            if q.last() != '/' {
                assert(b.drop_last() =~= q);
            }
        }
        assert(j[0] == q[0]);
        if q.len() >= 2 {
            assert(j[1] == q[1]);
        } else if q.last() != '/' {
            assert(j[1] == '/');
        }
        assert(has_root(j) == has_root(q));
        assert(has_cur_dir(j) == has_cur_dir(q));
        assert(path_components(j) =~= path_components(q).push(m));
    }
}

/// A path with a file name is its parent's components followed by the file
/// name.
proof fn lemma_parent_components(p: Seq<char>)
    requires
        file_name_of(p) is Some,
    ensures
        parent_of(p) is Some,
        path_components(p) == path_components(parent_of(p)->0).push(file_name_of(p)->0),
{
    let f = head_len(p);
    crate::paths::lemma_trimmed_keeps_body(p);
    let a = trim_tail(p, f);
    lemma_trim_tail_prefix(p, f);
    let b = drop_segment(a, f);
    lemma_drop_segment_prefix(a, f);
    lemma_drop_segment_tail(a, f);
    lemma_drop_segment_prefix(a.drop_last(), f);
    assert(b.len() < a.len());
    let m = a.subrange(b.len() as int, a.len() as int);
    assert(a =~= b + m);
    assert forall|i: int| 0 <= i < m.len() implies #[trigger] m[i] != '/' by {
        assert(m[i] == a[b.len() + i]);
    }
    assert(b.len() == 0 || b.last() == '/') by {
        if b.len() > 0 && b.last() != '/' {
            assert(b[0] == a[0] && a[0] == p[0]);
            assert(a[1] == p[1]);
        }
    }
    lemma_body_append_segment(b, m);
    assert(m != seq!['.']) by {
        if m =~= seq!['.'] {
            assert(a.last() == '.');
            if b.len() > 0 {
                assert(a[a.len() - 2] == b.last());
            }
        }
    }
    assert(body_parts(p) == body_parts(b).push(m));
    let q = trim_tail(b, f);
    assert(parent_of(p) == Some(q));
    assert(f == 1 ==> has_root(b) || has_cur_dir(b)) by {
        if f == 1 {
            assert(b[0] == p[0]);
            if b.len() >= 2 {
                assert(b[1] == p[1]);
            }
        }
    }
    crate::paths::lemma_trim_tail_body(b, f);
    lemma_trim_tail_prefix(b, f);
    assert(q =~= p.take(q.len() as int));
    assert(has_root(q) == has_root(p));
    assert(has_cur_dir(q) == has_cur_dir(p)) by {
        if q.len() >= 2 {
            assert(q[1] == p[1]);
        }
    }
    assert(path_components(p) =~= path_components(q).push(m));
}

/// Restoring an archive made by `DeleteMode::Archive` puts the directory
/// back where it was: the archive lands in the artifact's parent directory,
/// which is where it is restored into, under the name the artifact had
/// (the first component of the archived directory's name). So the restored
/// path is `parent.join(file_name)` of the deleted path, which is that path
/// again as a `Path` value (same components).
pub proof fn law_restore_returns_to_origin(p: Seq<char>)
    requires
        file_name_of(p) is Some,
    ensures
        parent_of(p) is Some,
        parent_of(crate::deleter::archive_path_of(p)) == parent_of(p),
        crate::deleter::first_component_of(crate::deleter::archive_entry_name_of(p)) == file_name_of(p),
        path_components(join_of(parent_of(p)->0, file_name_of(p)->0)) == path_components(p),
{
    lemma_parent_components(p);
    lemma_file_name_plain(p);
    lemma_join_components(parent_of(p)->0, file_name_of(p)->0);
    lemma_parent_shape(p);
    let q = parent_of(p)->0;
    lemma_archive_name_plain(p);
    lemma_parent_of_join(q, crate::deleter::archive_name_of(p), head_len(p));
    lemma_file_name_plain(p);
    lemma_plain_components(file_name_of(p)->0);
}

/// A bare number is read as days: `n` and `nd` stand for the same age.
pub proof fn law_bare_number_is_days(s: Seq<char>)
    requires
        s.len() > 0,
        crate::commands::all_digits(s),
    ensures
        crate::commands::duration_secs(s) == crate::commands::duration_secs(s.push('d')),
{
    let t = s.push('d');
    assert(crate::commands::is_digit(s[0]));
    assert(crate::commands::is_digit(s.last()));
    assert(t[0] == s[0]);
    assert(crate::text::trim_start(s) == s);
    assert(crate::text::trim_end(s) == s);
    assert(crate::text::trim_start(t) == t);
    assert(crate::text::trim_end(t) == t);
    assert(t.drop_last() =~= s);
}

proof fn lemma_first_workspace(dirs: Seq<Seq<char>>, markers: Seq<Seq<char>>, pkgs: Seq<(Seq<char>, Seq<char>)>)
    ensures
        match first_workspace(dirs, markers, pkgs) {
            Some(d) => exists|i: int|
                0 <= i < dirs.len() && dirs[i] == d && workspace_at(d, markers, pkgs) && forall|j: int|
                    0 <= j < i ==> !workspace_at(#[trigger] dirs[j], markers, pkgs),
            None => forall|j: int| 0 <= j < dirs.len() ==> !workspace_at(#[trigger] dirs[j], markers, pkgs),
        },
    decreases dirs.len(),
{
    if dirs.len() > 0 {
        let rest = dirs.drop_first();
        lemma_first_workspace(rest, markers, pkgs);
        if !workspace_at(dirs[0], markers, pkgs) {
            match first_workspace(rest, markers, pkgs) {
                Some(d) => {
                    let i = choose|i: int|
                        0 <= i < rest.len() && rest[i] == d && workspace_at(d, markers, pkgs) && forall|j: int|
                            0 <= j < i ==> !workspace_at(#[trigger] rest[j], markers, pkgs);
                    assert(dirs[i + 1] == d);
                    assert forall|j: int| 0 <= j < i + 1 implies !workspace_at(#[trigger] dirs[j], markers, pkgs) by {
                        if j > 0 {
                            assert(dirs[j] == rest[j - 1]);
                        }
                    }
                },
                None => {
                    assert forall|j: int| 0 <= j < dirs.len() implies !workspace_at(#[trigger] dirs[j], markers, pkgs) by {
                        if j > 0 {
                            assert(dirs[j] == rest[j - 1]);
                        }
                    }
                },
            }
        }
    }
}

/// The workspace root found for an artifact is the nearest one: it is one
/// of the searched directories, it is a workspace root, and no directory
/// searched before it is; with no root found, none of them is one.
pub proof fn law_nearest_workspace_root(
    artifact: Seq<char>,
    scan_root: Seq<char>,
    markers: Seq<Seq<char>>,
    pkgs: Seq<(Seq<char>, Seq<char>)>,
)
    ensures
        match workspace_root_of(artifact, scan_root, markers, pkgs) {
            Some(d) => exists|i: int|
                0 <= i < search_dirs_of(artifact, scan_root).len() && search_dirs_of(artifact, scan_root)[i]
                    == d && workspace_at(d, markers, pkgs) && forall|j: int|
                    0 <= j < i ==> !workspace_at(#[trigger] search_dirs_of(artifact, scan_root)[j], markers, pkgs),
            None => forall|j: int|
                0 <= j < search_dirs_of(artifact, scan_root).len() ==> !workspace_at(
                    #[trigger] search_dirs_of(artifact, scan_root)[j],
                    markers,
                    pkgs,
                ),
        },
{
    lemma_first_workspace(search_dirs_of(artifact, scan_root), markers, pkgs);
}

/// The search climbs one directory at a time: it starts at `dir`, each
/// directory is followed by its parent, no directory before the last is the
/// scan root, and the last is the scan root or has no parent.
pub proof fn law_search_climbs_to_scan_root(dir: Seq<char>, scan_root: Seq<char>)
    ensures
        search_dirs(dir, scan_root).len() > 0,
        search_dirs(dir, scan_root)[0] == dir,
        forall|i: int|
            0 <= i < search_dirs(dir, scan_root).len() - 1 ==> parent_of(
                #[trigger] search_dirs(dir, scan_root)[i],
            ) == Some(search_dirs(dir, scan_root)[i + 1]) && path_components(
                search_dirs(dir, scan_root)[i],
            ) != path_components(scan_root),
        path_components(search_dirs(dir, scan_root).last()) == path_components(scan_root) || parent_of(
            search_dirs(dir, scan_root).last(),
        ) is None,
    decreases dir.len(),
{
    let ds = search_dirs(dir, scan_root);
    if path_components(dir) != path_components(scan_root) {
        if let Some(p) = parent_of(dir) {
            lemma_parent_shorter(dir);
            law_search_climbs_to_scan_root(p, scan_root);
            let rest = search_dirs(p, scan_root);
            assert(ds == seq![dir] + rest);
            assert forall|i: int| 0 <= i < ds.len() - 1 implies parent_of(#[trigger] ds[i]) == Some(ds[i + 1])
                && path_components(ds[i]) != path_components(scan_root) by {
                if i > 0 {
                    assert(ds[i] == rest[i - 1]);
                    assert(ds[i + 1] == rest[i]);
                } else {
                    assert(ds[1] == rest[0]);
                }
            }
            assert(ds.last() == rest.last());
        }
    }
}

/// Annotating again with the roots found again changes nothing: the roots
/// depend only on the entry's path, the scan root and the files found
/// ([`crate::workspace::find_workspace_root`] computes
/// [`workspace_root_of`]), and setting a root twice is setting it once.
pub proof fn law_annotation_repeats(
    e: Entry,
    scan_root: Seq<char>,
    markers: Seq<Seq<char>>,
    pkgs: Seq<(Seq<char>, Seq<char>)>,
    root: Option<String>,
)
    requires
        crate::workspace::opt_view(root) == workspace_root_of(e.path@, scan_root, markers, pkgs),
    ensures
        with_root(with_root(e, root), root) == with_root(e, root),
        crate::workspace::opt_view(root) == workspace_root_of(with_root(e, root).path@, scan_root, markers, pkgs),
{
}

/// A directory is a workspace root exactly when a `pnpm-workspace.yaml` or a
/// `lerna.json` exists in it, or its `package.json` was read and contains
/// `"workspaces"`.
pub proof fn law_workspace_markers(
    d: Seq<char>,
    markers: Seq<Seq<char>>,
    pkgs: Seq<(Seq<char>, Seq<char>)>,
)
    ensures
        markers.contains(join_of(d, "pnpm-workspace.yaml"@)) ==> workspace_at(d, markers, pkgs),
        markers.contains(join_of(d, "lerna.json"@)) ==> workspace_at(d, markers, pkgs),
        (crate::workspace::package_text(pkgs, join_of(d, "package.json"@)) matches Some(t) && exists|i: int|
            0 <= i && i + 12 <= t.len() && #[trigger] t.subrange(i, i + 12) == "\"workspaces\""@)
            ==> workspace_at(d, markers, pkgs),
        workspace_at(d, markers, pkgs) ==> markers.contains(join_of(d, "pnpm-workspace.yaml"@))
            || markers.contains(join_of(d, "lerna.json"@)) || (crate::workspace::package_text(
            pkgs,
            join_of(d, "package.json"@),
        ) matches Some(t) && exists|i: int|
            0 <= i && i + 12 <= t.len() && #[trigger] t.subrange(i, i + 12) == "\"workspaces\""@),
{
    reveal_strlit("\"workspaces\"");
    assert("\"workspaces\""@.len() == 12);
}

/// The `package.json` text looked at for a path is the first one read for
/// that path.
pub proof fn law_package_text_first(pkgs: Seq<(Seq<char>, Seq<char>)>, path: Seq<char>, i: int)
    requires
        0 <= i < pkgs.len(),
        pkgs[i].0 == path,
        forall|j: int| 0 <= j < i ==> (#[trigger] pkgs[j]).0 != path,
    ensures
        crate::workspace::package_text(pkgs, path) == Some(pkgs[i].1),
    decreases i,
{
    if i > 0 {
        let rest = pkgs.drop_first();
        assert forall|j: int| 0 <= j < i - 1 implies (#[trigger] rest[j]).0 != path by {
            assert(rest[j] == pkgs[j + 1]);
        }
        law_package_text_first(rest, path, i - 1);
    }
}

/// When the artifact's own parent directory is a workspace root, that
/// directory is the root found (the search looks there first).
pub proof fn law_parent_workspace_wins(
    artifact: Seq<char>,
    scan_root: Seq<char>,
    markers: Seq<Seq<char>>,
    pkgs: Seq<(Seq<char>, Seq<char>)>,
)
    requires
        parent_of(artifact) is Some,
        workspace_at(parent_of(artifact)->0, markers, pkgs),
    ensures
        workspace_root_of(artifact, scan_root, markers, pkgs) == parent_of(artifact),
{
    law_search_climbs_to_scan_root(parent_of(artifact)->0, scan_root);
}

/// A parent holding `pnpm-workspace.yaml` is the workspace root found.
pub proof fn law_pnpm_parent_is_root(
    artifact: Seq<char>,
    scan_root: Seq<char>,
    markers: Seq<Seq<char>>,
    pkgs: Seq<(Seq<char>, Seq<char>)>,
)
    requires
        parent_of(artifact) is Some,
        markers.contains(join_of(parent_of(artifact)->0, "pnpm-workspace.yaml"@)),
    ensures
        workspace_root_of(artifact, scan_root, markers, pkgs) == parent_of(artifact),
{
    law_workspace_markers(parent_of(artifact)->0, markers, pkgs);
    law_parent_workspace_wins(artifact, scan_root, markers, pkgs);
}

/// Whenever an entry about to be deleted carries a risk note (a Python
/// virtual environment), the confirmation popup is the warning that shows
/// it, whatever the mode, permanent included; only without warnings does a
/// permanent deletion get the plain permanent popup, and any other mode the
/// plain confirmation.
pub proof fn law_risky_deletions_warn(
    es: Seq<Entry>,
    idx: Seq<usize>,
    mode: crate::deleter::DeleteMode,
    count: nat,
    m: crate::browser::Modal,
)
    requires
        crate::browser::modal_for(mode, count, crate::browser::warnings_of(es, idx), m),
    ensures
        (exists|k: int|
            0 <= k < idx.len() && idx[k] < es.len() && (#[trigger] es[idx[k] as int]).kind
                == ArtifactKind::PythonVenv) ==> (m matches crate::browser::Modal::Warning {
            mode: mm,
            warnings: w,
        } && mm == mode && crate::paths::string_views(w@) == crate::browser::warnings_of(es, idx)
            && crate::paths::string_views(w@).len() > 0),
        crate::browser::warnings_of(es, idx).len() == 0 && mode == crate::deleter::DeleteMode::Permanent
            ==> (m matches crate::browser::Modal::ConfirmPermanent { count: c } && c == count),
        crate::browser::warnings_of(es, idx).len() == 0 && mode != crate::deleter::DeleteMode::Permanent
            ==> (m matches crate::browser::Modal::Confirm { mode: mm, count: c } && mm == mode && c
            == count),
{
    if exists|k: int|
        0 <= k < idx.len() && idx[k] < es.len() && (#[trigger] es[idx[k] as int]).kind
            == ArtifactKind::PythonVenv {
        let k = choose|k: int|
            0 <= k < idx.len() && idx[k] < es.len() && (#[trigger] es[idx[k] as int]).kind
                == ArtifactKind::PythonVenv;
        lemma_warnings_nonempty(es, idx, k);
    }
}

proof fn lemma_warnings_nonempty(es: Seq<Entry>, idx: Seq<usize>, k: int)
    requires
        0 <= k < idx.len(),
        idx[k] < es.len(),
        es[idx[k] as int].kind == ArtifactKind::PythonVenv,
    ensures
        crate::browser::warnings_of(es, idx).len() > 0,
    decreases idx.len(),
{
    if k < idx.len() - 1 {
        lemma_warnings_nonempty(es, idx.drop_last(), k);
        lemma_warnings_grow(es, idx);
    }
}

proof fn lemma_warnings_grow(es: Seq<Entry>, idx: Seq<usize>)
    requires
        idx.len() > 0,
    ensures
        crate::browser::warnings_of(es, idx).len() >= crate::browser::warnings_of(es, idx.drop_last()).len(),
{
}

/// Whether warning `w` is the risk note of one of the entries at `idx`.
pub open spec fn warns_about(es: Seq<Entry>, idx: Seq<usize>, w: Seq<char>) -> bool {
    exists|k: int|
        0 <= k < idx.len() && idx[k] < es.len() && (#[trigger] es[idx[k] as int]).kind
            == ArtifactKind::PythonVenv && w == es[idx[k] as int].path@ + ": "@
            + crate::model::venv_risk_note()
}

/// Each risk warning names the path of a Python virtual environment about
/// to be deleted and carries the venv risk note.
pub proof fn law_warning_text(es: Seq<Entry>, idx: Seq<usize>)
    ensures
        forall|j: int|
            0 <= j < crate::browser::warnings_of(es, idx).len() ==> warns_about(
                es,
                idx,
                #[trigger] crate::browser::warnings_of(es, idx)[j],
            ),
    decreases idx.len(),
{
    if idx.len() > 0 {
        let rest = idx.drop_last();
        law_warning_text(es, rest);
        let w = crate::browser::warnings_of(es, idx);
        let wr = crate::browser::warnings_of(es, rest);
        assert forall|j: int| 0 <= j < w.len() implies warns_about(es, idx, #[trigger] w[j]) by {
            if j < wr.len() {
                assert(w[j] == wr[j]);
                assert(warns_about(es, rest, wr[j]));
                let k = choose|k: int|
                    0 <= k < rest.len() && rest[k] < es.len() && (#[trigger] es[rest[k] as int]).kind
                        == ArtifactKind::PythonVenv && wr[j] == es[rest[k] as int].path@ + ": "@
                        + crate::model::venv_risk_note();
                assert(idx[k] == rest[k]);
                assert(es[idx[k] as int].kind == ArtifactKind::PythonVenv);
            } else {
                let k = idx.len() - 1;
                assert(idx[k] == idx.last());
                assert(es[idx[k] as int].kind == ArtifactKind::PythonVenv);
            }
        }
    }
}

/// The size a workspace group is ordered by is its total size, and the size
/// an entry is ordered by is its own size.
pub proof fn law_sort_sizes(g: WorkspaceGroup, e: Entry)
    ensures
        crate::sorting::ByteSized::byte_size(&g) == g.total_size_bytes,
        crate::sorting::ByteSized::byte_size(&e) == e.size_bytes,
{
}

/// Arranged groups come largest total first (ties in their input order),
/// and the entries of each group largest first.
pub proof fn law_groups_by_total(groups: Seq<WorkspaceGroup>, r: Seq<WorkspaceGroup>)
    requires
        exists|sorted: Seq<WorkspaceGroup>, perm: Seq<int>|
            crate::sorting::stable_desc(groups, sorted, perm) && crate::sorting::entries_sorted_within(
                sorted,
                r,
            ),
    ensures
        r.len() == groups.len(),
        forall|i: int, j: int|
            0 <= i < j < r.len() ==> (#[trigger] r[i]).total_size_bytes >= (#[trigger] r[j]).total_size_bytes,
        forall|g: int, a: int, b: int|
            0 <= g < r.len() && 0 <= a < b < r[g].entries@.len() ==> (#[trigger] r[g].entries@[a]).size_bytes
                >= (#[trigger] r[g].entries@[b]).size_bytes,
{
    let (sorted, perm) = choose|sorted: Seq<WorkspaceGroup>, perm: Seq<int>|
        crate::sorting::stable_desc(groups, sorted, perm) && crate::sorting::entries_sorted_within(
            sorted,
            r,
        );
    assert forall|i: int, j: int| 0 <= i < j < r.len() implies (#[trigger] r[i]).total_size_bytes
        >= (#[trigger] r[j]).total_size_bytes by {
        assert(crate::sorting::ByteSized::byte_size(&sorted[i]) >= crate::sorting::ByteSized::byte_size(&sorted[j]));
    }
    assert forall|g: int, a: int, b: int|
        0 <= g < r.len() && 0 <= a < b < r[g].entries@.len() implies (#[trigger] r[g].entries@[a]).size_bytes
            >= (#[trigger] r[g].entries@[b]).size_bytes by {
        let p = choose|p: Seq<int>| crate::sorting::stable_desc(sorted[g].entries@, r[g].entries@, p);
        assert(crate::sorting::ByteSized::byte_size(&r[g].entries@[a]) >= crate::sorting::ByteSized::byte_size(&r[g].entries@[b]));
    }
}

/// A pnpm lockfile next to `node_modules` decides the package manager on
/// its own; without one, a yarn lockfile decides; without either, an npm
/// lockfile; with none, or without a parent, it is unknown.
pub proof fn law_lockfile_precedence(nm: Seq<char>, present: Seq<Seq<char>>)
    ensures
        parent_of(nm) matches Some(p) && present.contains(join_of(p, "pnpm-lock.yaml"@))
            ==> crate::scanner::package_manager_of(nm, present) == crate::model::PackageManager::Pnpm,
        parent_of(nm) matches Some(p) && !present.contains(join_of(p, "pnpm-lock.yaml"@))
            && present.contains(join_of(p, "yarn.lock"@)) ==> crate::scanner::package_manager_of(
            nm,
            present,
        ) == crate::model::PackageManager::Yarn,
        parent_of(nm) matches Some(p) && !present.contains(join_of(p, "pnpm-lock.yaml"@))
            && !present.contains(join_of(p, "yarn.lock"@)) && present.contains(
            join_of(p, "package-lock.json"@),
        ) ==> crate::scanner::package_manager_of(nm, present) == crate::model::PackageManager::Npm,
        parent_of(nm) matches Some(p) && !present.contains(join_of(p, "pnpm-lock.yaml"@))
            && !present.contains(join_of(p, "yarn.lock"@)) && !present.contains(
            join_of(p, "package-lock.json"@),
        ) ==> crate::scanner::package_manager_of(nm, present) == crate::model::PackageManager::Unknown,
        parent_of(nm) is None ==> crate::scanner::package_manager_of(nm, present)
            == crate::model::PackageManager::Unknown,
{
}

/// Labels tell kinds apart: no two kinds share a label.
pub proof fn law_labels_distinct(k1: ArtifactKind, k2: ArtifactKind)
    ensures
        crate::model::label_of(k1) == crate::model::label_of(k2) <==> k1 == k2,
{
    reveal_strlit("node_modules");
    reveal_strlit("Python venv");
    reveal_strlit("__pycache__");
    reveal_strlit(".pytest_cache");
    reveal_strlit(".mypy_cache");
    reveal_strlit(".ruff_cache");
    reveal_strlit("Cargo target");
    reveal_strlit("Maven target");
    reveal_strlit("Gradle build");
    reveal_strlit("Next.js cache");
    reveal_strlit("Turborepo cache");
    reveal_strlit("dist/");
    let a = crate::model::label_of(k1);
    let b = crate::model::label_of(k2);
    if k1 != k2 {
        assert(a.len() != b.len() || a[0] != b[0] || a[1] != b[1]);
    }
}

/// Each kind's label: the directory name for the caches and `node_modules`,
/// and the tool's own name for build outputs and environments.
pub proof fn law_labels(k: ArtifactKind)
    ensures
        crate::model::label_of(ArtifactKind::NodeModules) == "node_modules"@,
        crate::model::label_of(ArtifactKind::PythonVenv) == "Python venv"@,
        crate::model::label_of(ArtifactKind::PythonPycache) == "__pycache__"@,
        crate::model::label_of(ArtifactKind::PythonPytestCache) == ".pytest_cache"@,
        crate::model::label_of(ArtifactKind::PythonMypyCache) == ".mypy_cache"@,
        crate::model::label_of(ArtifactKind::PythonRuffCache) == ".ruff_cache"@,
        crate::model::label_of(ArtifactKind::RustTarget) == "Cargo target"@,
        crate::model::label_of(ArtifactKind::JavaMavenTarget) == "Maven target"@,
        crate::model::label_of(ArtifactKind::JavaGradleBuild) == "Gradle build"@,
        crate::model::label_of(ArtifactKind::NextCache) == "Next.js cache"@,
        crate::model::label_of(ArtifactKind::TurboCache) == "Turborepo cache"@,
        crate::model::label_of(ArtifactKind::GenericDist) == "dist/"@,
{
}

} // verus!
