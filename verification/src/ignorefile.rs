//! `.nodewipeignore` files: one pattern per line; blank lines and lines that
//! start with `#` are skipped, trailing `/` is dropped. A bare name matches
//! any component of a path equal to it; a longer pattern matches a path when
//! some ancestor of the path ends with the pattern, component by component
//! (with `\` read as `/`).
use vstd::prelude::*;
use crate::text::{chars_of, chars_eq, string_of_range, trim, trim_bounds, line_pieces, line_state};
use crate::paths::{components_exec, path_components, string_views, views};

verus! {

/// `s` without trailing `/` characters (`trim_end_matches('/')`).
pub open spec fn trim_end_slashes(s: Seq<char>) -> Seq<char>
    decreases s.len(),
{
    if s.len() > 0 && s.last() == '/' {
        trim_end_slashes(s.drop_last())
    } else {
        s
    }
}

/// A trimmed line that carries a pattern: not blank, not a `#` comment.
pub open spec fn is_pattern_line(t: Seq<char>) -> bool {
    t.len() > 0 && t[0] != '#'
}

/// The patterns that the given lines hold, in order.
pub open spec fn patterns_of_lines(lines: Seq<Seq<char>>) -> Seq<Seq<char>>
    decreases lines.len(),
{
    if lines.len() == 0 {
        seq![]
    } else {
        let rest = patterns_of_lines(lines.drop_last());
        let t = trim(lines.last());
        if is_pattern_line(t) {
            rest.push(trim_end_slashes(t))
        } else {
            rest
        }
    }
}

/// The patterns that the text of an ignore file holds.
pub open spec fn patterns_of(content: Seq<char>) -> Seq<Seq<char>> {
    patterns_of_lines(line_pieces(content))
}

/// Appends the pattern of line `v[start..end]`, if it holds one.
fn add_line_pattern(v: &Vec<char>, start: usize, end: usize, out: &mut Vec<String>)
    requires
        start <= end <= v@.len(),
    ensures
        string_views(final(out)@) == (if is_pattern_line(trim(v@.subrange(start as int, end as int))) {
            string_views(old(out)@).push(trim_end_slashes(trim(v@.subrange(start as int, end as int))))
        } else {
            string_views(old(out)@)
        }),
{
    let (i, j) = trim_bounds(v, start, end);
    if j > i && v[i] != '#' {
        let mut k = j;
        while k > i && v[k - 1] == '/'
            invariant
                i <= k <= j <= v@.len(),
                trim_end_slashes(v@.subrange(i as int, j as int)) == trim_end_slashes(
                    v@.subrange(i as int, k as int),
                ),
            decreases k,
        {
            assert(v@.subrange(i as int, k as int).drop_last() =~= v@.subrange(i as int, k - 1));
            k = k - 1;
        }
        let s = string_of_range(v, i, k);
        let ghost before = out@;
        out.push(s);
        assert(string_views(out@) =~= string_views(before).push(s@));
    }
}

/// Reads the patterns out of the text of an ignore file.
pub fn parse_ignore_patterns(content: &str) -> (r: Vec<String>)
    ensures
        string_views(r@) == patterns_of(content@),
{
    let v = chars_of(content);
    let mut out: Vec<String> = Vec::new();
    let mut start: usize = 0;
    let mut i: usize = 0;
    let ghost mut lines: Seq<Seq<char>> = seq![];
    assert(v@.take(0) =~= seq![]);
    assert(string_views(out@) =~= seq![]);
    while i < v.len()
        invariant
            start <= i <= v@.len(),
            line_state(v@.take(i as int)) == (lines, v@.subrange(start as int, i as int)),
            string_views(out@) == patterns_of_lines(lines),
        decreases v@.len() - i,
    {
        assert(v@.take(i + 1).drop_last() =~= v@.take(i as int));
        if v[i] == '\n' {
            add_line_pattern(&v, start, i, &mut out);
            proof {
                let l = v@.subrange(start as int, i as int);
                assert(lines.push(l).drop_last() =~= lines);
                lines = lines.push(l);
            }
            start = i + 1;
            assert(v@.subrange(start as int, i + 1) =~= seq![]);
        } else {
            assert(v@.subrange(start as int, i + 1) =~= v@.subrange(start as int, i as int).push(
                v@[i as int],
            ));
        }
        i = i + 1;
    }
    assert(v@.take(v@.len() as int) =~= v@);
    let ghost cur = v@.subrange(start as int, i as int);
    if start < i {
        add_line_pattern(&v, start, i, &mut out);
        assert(lines.push(cur).drop_last() =~= lines);
    } else {
        assert(cur.len() == 0);
    }
    out
}

/// `s` with every `\` written as `/`.
pub open spec fn slashed(s: Seq<char>) -> Seq<char> {
    s.map_values(|c: char| if c == '\\' { '/' } else { c })
}

/// `b` is a suffix of `a`.
pub open spec fn ends_with(a: Seq<char>, b: Seq<char>) -> bool {
    b.len() <= a.len() && a.subrange(a.len() - b.len(), a.len() as int) == b
}

/// The component list `pc` has `qc` as its last components when cut off
/// after the first `k` of them: the ancestor made of `pc[..k]` ends with `qc`.
pub open spec fn parts_end_at(pc: Seq<Seq<char>>, qc: Seq<Seq<char>>, k: int) -> bool {
    qc.len() <= k <= pc.len() && pc.subrange(k - qc.len(), k) == qc
}

/// Whether one ignore pattern matches `path`. A pattern of one component
/// (`\` splits nothing here) matches when it equals a component of `path`.
/// A longer pattern matches when some ancestor of `path` (`path` itself
/// included) ends with it, component by component, with `\` read as `/` in
/// both.
pub open spec fn pattern_matches(path: Seq<char>, pattern: Seq<char>) -> bool {
    let raw = path_components(pattern);
    if raw.len() == 1 {
        path_components(path).contains(raw[0])
    } else {
        let pc = path_components(slashed(path));
        let qc = path_components(slashed(pattern));
        exists|k: int| #[trigger] parts_end_at(pc, qc, k)
    }
}

/// Whether some pattern matches `path`.
pub open spec fn ignored_by(path: Seq<char>, patterns: Seq<Seq<char>>) -> bool {
    exists|i: int| 0 <= i < patterns.len() && pattern_matches(path, #[trigger] patterns[i])
}

fn slashed_exec(v: &Vec<char>) -> (r: Vec<char>)
    ensures
        r@ == slashed(v@),
{
    let mut r: Vec<char> = Vec::new();
    let mut i: usize = 0;
    while i < v.len()
        invariant
            i <= v@.len(),
            r@ == slashed(v@.take(i as int)),
        decreases v@.len() - i,
    {
        let c = if v[i] == '\\' {
            '/'
        } else {
            v[i]
        };
        r.push(c);
        assert(r@ =~= slashed(v@.take(i + 1)));
        i = i + 1;
    }
    assert(v@.take(v@.len() as int) =~= v@);
    r
}

fn contains_chars(list: &Vec<Vec<char>>, x: &Vec<char>) -> (r: bool)
    ensures
        r == views(list@).contains(x@),
{
    let mut i: usize = 0;
    while i < list.len()
        invariant
            i <= list@.len(),
            forall|k: int| 0 <= k < i ==> views(list@)[k] != x@,
        decreases list@.len() - i,
    {
        if chars_eq(&list[i], x) {
            assert(views(list@)[i as int] == x@);
            return true;
        }
        i = i + 1;
    }
    false
}

/// Whether `pc[k - qc.len()..k]` equals `qc`, part by part.
fn parts_match_at(pc: &Vec<Vec<char>>, qc: &Vec<Vec<char>>, k: usize) -> (r: bool)
    requires
        qc@.len() <= k <= pc@.len(),
    ensures
        r == parts_end_at(views(pc@), views(qc@), k as int),
{
    let m = qc.len();
    let base = k - m;
    let mut i: usize = 0;
    while i < m
        invariant
            m == qc@.len(),
            base + m == k,
            k <= pc@.len(),
            i <= m,
            forall|j: int| 0 <= j < i ==> views(pc@)[base + j] == views(qc@)[j],
        decreases m - i,
    {
        if !chars_eq(&pc[base + i], &qc[i]) {
            assert(views(pc@).subrange(base as int, k as int)[i as int] != views(qc@)[i as int]);
            return false;
        }
        i = i + 1;
    }
    assert(views(pc@).subrange(base as int, k as int) =~= views(qc@));
    true
}

/// True if `path` should be skipped per `patterns` (see [`pattern_matches`]):
/// a bare name matches any component of `path` equal to it; `apps/old-site`
/// matches `/repo/apps/old-site` and everything under it, but not
/// `/repo/myapps/old-site`.
pub fn is_ignored(path: &str, patterns: &[String]) -> (r: bool)
    ensures
        r == ignored_by(path@, patterns@.map_values(|p: String| p@)),
        patterns@.len() == 0 ==> !r,
{
    let ghost pats = patterns@.map_values(|p: String| p@);
    if patterns.len() == 0 {
        return false;
    }
    let pv = chars_of(path);
    let raw_pc = components_exec(&pv);
    let path_sl = slashed_exec(&pv);
    let pc = components_exec(&path_sl);
    let mut i: usize = 0;
    while i < patterns.len()
        invariant
            i <= patterns@.len(),
            pats == patterns@.map_values(|p: String| p@),
            views(pc@) == path_components(slashed(path@)),
            views(raw_pc@) == path_components(path@),
            forall|k: int| 0 <= k < i ==> !pattern_matches(path@, #[trigger] pats[k]),
        decreases patterns@.len() - i,
    {
        let qv = chars_of(patterns[i].as_str());
        assert(qv@ == pats[i as int]);
        let q_raw = components_exec(&qv);
        if q_raw.len() == 1 {
            if contains_chars(&raw_pc, &q_raw[0]) {
                assert(pattern_matches(path@, pats[i as int]));
                return true;
            }
            assert(!pattern_matches(path@, pats[i as int]));
            i = i + 1;
            continue;
        }
        let q_sl = slashed_exec(&qv);
        let qc = components_exec(&q_sl);
        let ghost q = pats[i as int];
        assert(views(qc@) == path_components(slashed(q)));
        let n = pc.len();
        let m = qc.len();
        let mut hit = false;
        if m <= n {
            hit = parts_match_at(&pc, &qc, n);
            let mut k = m;
            while !hit && k < n
                invariant
                    m <= k <= n,
                    n == pc@.len(),
                    m == qc@.len(),
                    hit ==> exists|j: int| #[trigger] parts_end_at(views(pc@), views(qc@), j),
                    !hit ==> !parts_end_at(views(pc@), views(qc@), n as int),
                    !hit ==> forall|j: int| m <= j < k ==> !#[trigger] parts_end_at(views(pc@), views(qc@), j),
                decreases n - k,
            {
                let ok = parts_match_at(&pc, &qc, k);
                hit = ok;
                k = k + 1;
            }
        }
        if hit {
            assert(pattern_matches(path@, q));
            return true;
        }
        assert(!pattern_matches(path@, q)) by {
            assert forall|j: int| !#[trigger] parts_end_at(views(pc@), views(qc@), j) by {
            }
        }
        i = i + 1;
    }
    false
}

} // verus!
