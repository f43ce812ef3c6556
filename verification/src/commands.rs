//! The decisions of the command-line and desktop front ends: parsing
//! `--exclude-types` and `--older-than`, merging exclusions, filtering scan
//! results, and validating delete requests.
use vstd::prelude::*;
use crate::model::{ArtifactKind, Entry, lemma_kind_listed, lemma_slug_round_trip, slug_of, all_kinds};
use crate::deleter::DeleteMode;
use crate::config::{delete_mode_named, parse_delete_mode};
use crate::text::{
    ascii_alpha, ascii_lower, chars_of, is_ascii_alpha, string_of_range, to_ascii_lower, trim,
    trim_bounds,
};
use crate::workspace::sum_sizes;

verus! {

broadcast use vstd::string::group_string_axioms;

/// The kind whose slug is `s`, if any.
pub open spec fn kind_named(s: Seq<char>) -> Option<ArtifactKind> {
    if exists|k: ArtifactKind| slug_of(k) == s {
        Some(choose|k: ArtifactKind| slug_of(k) == s)
    } else {
        None
    }
}

/// What `--exclude-types` values (and the config file's
/// `default_exclude_types`) mean: each value, trimmed, is a slug.
pub open spec fn exclude_types_ok(raw: Seq<Seq<char>>, kinds: Seq<ArtifactKind>) -> bool {
    &&& kinds.len() == raw.len()
    &&& forall|i: int| 0 <= i < raw.len() ==> Some(#[trigger] kinds[i]) == kind_named(trim(raw[i]))
}

/// The values of `--exclude-types` as kinds. Fails on the first value that,
/// trimmed, is not a slug, giving that value back as written.
pub fn parse_exclude_types(raw: &[String]) -> (r: Result<Vec<ArtifactKind>, String>)
    ensures
        match r {
            Ok(kinds) => exclude_types_ok(crate::paths::string_views(raw@), kinds@),
            Err(bad) => exists|i: int|
                0 <= i < raw@.len() && bad@ == raw@[i]@ && kind_named(trim(raw@[i]@)) is None
                    && forall|j: int| 0 <= j < i ==> kind_named(trim(#[trigger] raw@[j]@)) is Some,
        },
{
    let mut kinds: Vec<ArtifactKind> = Vec::new();
    let mut i: usize = 0;
    while i < raw.len()
        invariant
            i <= raw@.len(),
            kinds@.len() == i,
            forall|j: int| 0 <= j < i ==> Some(#[trigger] kinds@[j]) == kind_named(trim(raw@[j]@)),
        decreases raw@.len() - i,
    {
        let t = crate::text::trimmed(raw[i].as_str());
        match ArtifactKind::from_slug(t.as_str()) {
            Some(k) => {
                proof {
                    assert forall|k2: ArtifactKind| slug_of(k2) == t@ implies k2 == k by {
                        lemma_slug_round_trip(k, k2);
                    }
                }
                kinds.push(k);
            },
            None => {
                let bad = raw[i].clone();
                assert(kind_named(trim(raw@[i as int]@)) is None);
                assert(forall|j: int| 0 <= j < i ==> kind_named(trim(#[trigger] raw@[j]@)) is Some) by {
                    assert forall|j: int| 0 <= j < i implies kind_named(trim(#[trigger] raw@[j]@)) is Some by {
                        assert(Some(kinds@[j]) == kind_named(trim(raw@[j]@)));
                    }
                }
                return Err(bad);
            },
        }
        i = i + 1;
    }
    assert(exclude_types_ok(crate::paths::string_views(raw@), kinds@));
    Ok(kinds)
}

/// Character-wise lexicographic order (the order of `str`).
pub open spec fn text_lt(a: Seq<char>, b: Seq<char>) -> bool
    decreases a.len(),
{
    if a.len() == 0 {
        b.len() > 0
    } else if b.len() == 0 {
        false
    } else if a[0] != b[0] {
        (a[0] as u32) < (b[0] as u32)
    } else {
        text_lt(a.drop_first(), b.drop_first())
    }
}

/// The kinds in order of their slugs.
pub open spec fn kinds_by_slug() -> Seq<ArtifactKind> {
    seq![
        ArtifactKind::GenericDist,
        ArtifactKind::JavaGradleBuild,
        ArtifactKind::JavaMavenTarget,
        ArtifactKind::PythonMypyCache,
        ArtifactKind::NextCache,
        ArtifactKind::NodeModules,
        ArtifactKind::PythonPycache,
        ArtifactKind::PythonPytestCache,
        ArtifactKind::PythonRuffCache,
        ArtifactKind::RustTarget,
        ArtifactKind::TurboCache,
        ArtifactKind::PythonVenv,
    ]
}

/// Slugs in [`kinds_by_slug`] increase strictly.
pub proof fn lemma_kinds_by_slug_sorted()
    ensures
        forall|i: int, j: int|
            0 <= i < j < 12 ==> text_lt(slug_of(#[trigger] kinds_by_slug()[i]), slug_of(
                #[trigger] kinds_by_slug()[j],
            )),
{
    reveal_strlit("node_modules");
    reveal_strlit("venv");
    reveal_strlit("pycache");
    reveal_strlit("pytest_cache");
    reveal_strlit("mypy_cache");
    reveal_strlit("ruff_cache");
    reveal_strlit("rust_target");
    reveal_strlit("maven_target");
    reveal_strlit("gradle_build");
    reveal_strlit("next_cache");
    reveal_strlit("turbo_cache");
    reveal_strlit("dist");
    let s = |i: int| slug_of(kinds_by_slug()[i]);
    // Neighbours are in order; the first differing character decides.
    lemma_text_lt_at(s(0), s(1), 0);
    lemma_text_lt_at(s(1), s(2), 0);
    lemma_text_lt_at(s(2), s(3), 1);
    lemma_text_lt_at(s(3), s(4), 0);
    lemma_text_lt_at(s(4), s(5), 1);
    lemma_text_lt_at(s(5), s(6), 0);
    lemma_text_lt_at(s(6), s(7), 2);
    lemma_text_lt_at(s(7), s(8), 0);
    lemma_text_lt_at(s(8), s(9), 2);
    lemma_text_lt_at(s(9), s(10), 0);
    lemma_text_lt_at(s(10), s(11), 0);
    assert forall|i: int, j: int| 0 <= i < j < 12 implies text_lt(
        slug_of(#[trigger] kinds_by_slug()[i]),
        slug_of(#[trigger] kinds_by_slug()[j]),
    ) by {
        lemma_text_lt_chain(i, j);
    }
}

proof fn lemma_text_lt_at(a: Seq<char>, b: Seq<char>, k: int)
    requires
        0 <= k < a.len(),
        k < b.len(),
        forall|i: int| 0 <= i < k ==> a[i] == b[i],
        (a[k] as u32) < (b[k] as u32),
    ensures
        text_lt(a, b),
    decreases k,
{
    if k > 0 {
        lemma_text_lt_at(a.drop_first(), b.drop_first(), k - 1);
    }
}

proof fn lemma_text_lt_transitive(a: Seq<char>, b: Seq<char>, c: Seq<char>)
    requires
        text_lt(a, b),
        text_lt(b, c),
    ensures
        text_lt(a, c),
    decreases a.len(),
{
    if a.len() > 0 && b.len() > 0 && c.len() > 0 && a[0] == b[0] && b[0] == c[0] {
        lemma_text_lt_transitive(a.drop_first(), b.drop_first(), c.drop_first());
    }
}

proof fn lemma_text_lt_chain(i: int, j: int)
    requires
        0 <= i < j < 12,
        forall|k: int|
            0 <= k < 11 ==> text_lt(slug_of(#[trigger] kinds_by_slug()[k]), slug_of(
                kinds_by_slug()[k + 1],
            )),
    ensures
        text_lt(slug_of(kinds_by_slug()[i]), slug_of(kinds_by_slug()[j])),
    decreases j - i,
{
    if j > i + 1 {
        lemma_text_lt_chain(i, j - 1);
        assert(text_lt(slug_of(kinds_by_slug()[j - 1]), slug_of(kinds_by_slug()[j])));
        lemma_text_lt_transitive(
            slug_of(kinds_by_slug()[i]),
            slug_of(kinds_by_slug()[j - 1]),
            slug_of(kinds_by_slug()[j]),
        );
    }
}

/// Every kind occurs in [`kinds_by_slug`].
proof fn lemma_kind_in_slug_order(k: ArtifactKind)
    ensures
        exists|j: int| 0 <= j < 12 && kinds_by_slug()[j] == k,
{
    match k {
        ArtifactKind::GenericDist => assert(kinds_by_slug()[0] == k),
        ArtifactKind::JavaGradleBuild => assert(kinds_by_slug()[1] == k),
        ArtifactKind::JavaMavenTarget => assert(kinds_by_slug()[2] == k),
        ArtifactKind::PythonMypyCache => assert(kinds_by_slug()[3] == k),
        ArtifactKind::NextCache => assert(kinds_by_slug()[4] == k),
        ArtifactKind::NodeModules => assert(kinds_by_slug()[5] == k),
        ArtifactKind::PythonPycache => assert(kinds_by_slug()[6] == k),
        ArtifactKind::PythonPytestCache => assert(kinds_by_slug()[7] == k),
        ArtifactKind::PythonRuffCache => assert(kinds_by_slug()[8] == k),
        ArtifactKind::RustTarget => assert(kinds_by_slug()[9] == k),
        ArtifactKind::TurboCache => assert(kinds_by_slug()[10] == k),
        ArtifactKind::PythonVenv => assert(kinds_by_slug()[11] == k),
    }
}

fn listed(kinds: &[ArtifactKind], k: ArtifactKind) -> (r: bool)
    ensures
        r == kinds@.contains(k),
{
    let mut i: usize = 0;
    while i < kinds.len()
        invariant
            i <= kinds@.len(),
            forall|m: int| 0 <= m < i ==> kinds@[m] != k,
        decreases kinds@.len() - i,
    {
        if kinds[i] == k {
            assert(kinds@[i as int] == k);
            return true;
        }
        i = i + 1;
    }
    false
}

/// The kinds excluded from a scan when both the command line and the config
/// file exclude some: every kind named by either, each once, in order of
/// slug (both sources apply; the config sets a baseline, flags add to it).
pub fn merge_exclude_kinds(cli: &[ArtifactKind], config: &[ArtifactKind]) -> (r: Vec<ArtifactKind>)
    ensures
        forall|i: int, j: int|
            0 <= i < j < r@.len() ==> text_lt(slug_of(#[trigger] r@[i]), slug_of(#[trigger] r@[j])),
        forall|k: ArtifactKind| r@.contains(k) <==> (cli@.contains(k) || config@.contains(k)),
{
    let order = vec![
        ArtifactKind::GenericDist,
        ArtifactKind::JavaGradleBuild,
        ArtifactKind::JavaMavenTarget,
        ArtifactKind::PythonMypyCache,
        ArtifactKind::NextCache,
        ArtifactKind::NodeModules,
        ArtifactKind::PythonPycache,
        ArtifactKind::PythonPytestCache,
        ArtifactKind::PythonRuffCache,
        ArtifactKind::RustTarget,
        ArtifactKind::TurboCache,
        ArtifactKind::PythonVenv,
    ];
    assert(order@ =~= kinds_by_slug());
    let mut r: Vec<ArtifactKind> = Vec::new();
    let ghost mut idx: Seq<int> = seq![];
    let mut i: usize = 0;
    while i < order.len()
        invariant
            i <= order@.len(),
            order@ == kinds_by_slug(),
            idx.len() == r@.len(),
            forall|m: int| 0 <= m < r@.len() ==> 0 <= #[trigger] idx[m] < i,
            forall|m: int| 0 <= m < r@.len() ==> #[trigger] r@[m] == kinds_by_slug()[idx[m]],
            forall|m: int, n: int| 0 <= m < n < r@.len() ==> #[trigger] idx[m] < #[trigger] idx[n],
            forall|m: int| 0 <= m < r@.len() ==> (cli@.contains(#[trigger] r@[m]) || config@.contains(r@[m])),
            forall|j: int|
                0 <= j < i && (cli@.contains(#[trigger] kinds_by_slug()[j]) || config@.contains(
                    kinds_by_slug()[j],
                )) ==> r@.contains(kinds_by_slug()[j]),
        decreases order@.len() - i,
    {
        let k = order[i];
        if listed(cli, k) || listed(config, k) {
            let ghost before = r@;
            r.push(k);
            proof {
                idx = idx.push(i as int);
                assert forall|j: int|
                    0 <= j < i + 1 && (cli@.contains(#[trigger] kinds_by_slug()[j])
                        || config@.contains(kinds_by_slug()[j])) implies r@.contains(
                    kinds_by_slug()[j],
                ) by {
                    if j < i {
                        let m = choose|m: int| 0 <= m < before.len() && before[m] == kinds_by_slug()[j];
                        assert(r@[m] == before[m]);
                    } else {
                        assert(r@[r@.len() - 1] == k);
                    }
                }
            }
        }
        i = i + 1;
    }
    proof {
        lemma_kinds_by_slug_sorted();
        assert forall|k: ArtifactKind| r@.contains(k) <==> (cli@.contains(k) || config@.contains(k)) by {
            lemma_kind_in_slug_order(k);
            if r@.contains(k) {
                let m = choose|m: int| 0 <= m < r@.len() && r@[m] == k;
                assert(cli@.contains(r@[m]) || config@.contains(r@[m]));
            }
        }
        assert forall|a: int, b: int| 0 <= a < b < r@.len() implies text_lt(
            slug_of(#[trigger] r@[a]),
            slug_of(#[trigger] r@[b]),
        ) by {
            assert(idx[a] < idx[b]);
        }
    }
    r
}

/// Why an `--older-than` value is refused.
#[derive(Debug, Clone, Copy, PartialEq, Eq, Structural)]
pub enum DurationError {
    /// The number part is not a `u64` (expected e.g. `30d`, `2w`, `6m`, `1y`).
    InvalidNumber,
    /// The unit is not one of `d`, `w`, `m`, `y`.
    InvalidUnit,
}

/// An ASCII decimal digit.
pub open spec fn is_digit(c: char) -> bool {
    '0' <= c && c <= '9'
}

/// The value of a string of decimal digits.
pub open spec fn digits_value(s: Seq<char>) -> int
    decreases s.len(),
{
    if s.len() == 0 {
        0
    } else {
        digits_value(s.drop_last()) * 10 + (s.last() as int - '0' as int)
    }
}

/// `s` without one leading `+`.
pub open spec fn sign_stripped(s: Seq<char>) -> Seq<char> {
    if s.len() > 0 && s[0] == '+' {
        s.drop_first()
    } else {
        s
    }
}

/// Every character is a decimal digit.
pub open spec fn all_digits(d: Seq<char>) -> bool {
    forall|i: int| 0 <= i < d.len() ==> is_digit(#[trigger] d[i])
}

/// `u64::from_str`: an optional `+`, then at least one decimal digit, with a
/// value that fits in a `u64`.
pub open spec fn u64_of(s: Seq<char>) -> Option<int> {
    let d = sign_stripped(s);
    if d.len() == 0 || !all_digits(d) || digits_value(d) > u64::MAX {
        None
    } else {
        Some(digits_value(d))
    }
}

/// The number part and the lower-cased unit of an age string: after
/// trimming, a final ASCII letter is the unit; otherwise the unit is days.
pub open spec fn duration_parts(s: Seq<char>) -> (Seq<char>, char) {
    let t = trim(s);
    if t.len() > 0 && is_ascii_alpha(t.last()) {
        (t.drop_last(), ascii_lower(t.last()))
    } else {
        (t, 'd')
    }
}

/// Days per unit: `d` 1, `w` 7, `m` 30, `y` 365 (months and years are
/// approximate).
pub open spec fn unit_days(u: char) -> Option<int> {
    if u == 'd' {
        Some(1)
    } else if u == 'w' {
        Some(7)
    } else if u == 'm' {
        Some(30)
    } else if u == 'y' {
        Some(365)
    } else {
        None
    }
}

/// The age an `--older-than` value stands for, in seconds.
pub open spec fn duration_secs(s: Seq<char>) -> Result<int, DurationError> {
    let (num, unit) = duration_parts(s);
    match u64_of(num) {
        None => Err(DurationError::InvalidNumber),
        Some(n) => match unit_days(unit) {
            None => Err(DurationError::InvalidUnit),
            Some(m) => Ok(n * m * 86400),
        },
    }
}

/// The age of `s` fits in a `u64` number of seconds (beyond that, computing
/// it overflows).
pub open spec fn duration_fits(s: Seq<char>) -> bool {
    duration_secs(s) matches Ok(v) ==> v <= u64::MAX
}

proof fn lemma_digits_value_grows(s: Seq<char>, i: int)
    requires
        0 <= i <= s.len(),
        forall|k: int| 0 <= k < s.len() ==> is_digit(#[trigger] s[k]),
    ensures
        0 <= digits_value(s.take(i)) <= digits_value(s),
    decreases s.len() - i,
{
    if i < s.len() {
        lemma_digits_value_grows(s, i + 1);
        assert(s.take(i + 1).drop_last() =~= s.take(i));
        assert(is_digit(s[i]));
    } else {
        assert(s.take(i) =~= s);
        lemma_digits_value_nonneg(s);
    }
}

proof fn lemma_digits_value_nonneg(s: Seq<char>)
    requires
        forall|k: int| 0 <= k < s.len() ==> is_digit(#[trigger] s[k]),
    ensures
        0 <= digits_value(s),
    decreases s.len(),
{
    if s.len() > 0 {
        lemma_digits_value_nonneg(s.drop_last());
        assert(is_digit(s[s.len() - 1]));
    }
}

/// `u64::from_str` of `v[from..to]`.
fn parse_u64(v: &Vec<char>, from: usize, to: usize) -> (r: Option<u64>)
    requires
        from <= to <= v@.len(),
    ensures
        match r {
            Some(n) => u64_of(v@.subrange(from as int, to as int)) == Some(n as int),
            None => u64_of(v@.subrange(from as int, to as int)) is None,
        },
{
    let ghost s = v@.subrange(from as int, to as int);
    let start = if from < to && v[from] == '+' {
        from + 1
    } else {
        from
    };
    let ghost d = v@.subrange(start as int, to as int);
    assert(d =~= sign_stripped(s));
    if start == to {
        return None;
    }
    let mut n: u64 = 0;
    let mut i = start;
    while i < to
        invariant
            start <= i <= to <= v@.len(),
            d == v@.subrange(start as int, to as int),
            s == v@.subrange(from as int, to as int),
            d == sign_stripped(s),
            d.len() > 0,
            forall|k: int| 0 <= k < i - start ==> is_digit(#[trigger] d[k]),
            n == digits_value(d.take(i - start)),
        decreases to - i,
    {
        let c = v[i];
        assert(d[i - start] == c);
        if !('0' <= c && c <= '9') {
            assert(!is_digit(d[i - start]));
            assert(!all_digits(d));
            assert(u64_of(s) is None);
            return None;
        }
        let dg: u64 = ((c as u32) - ('0' as u32)) as u64;
        assert(d.take(i - start + 1).drop_last() =~= d.take(i - start));
        if n > 1844674407370955161 || (n == 1844674407370955161 && dg > 5) {
            proof {
                assert(digits_value(d.take(i - start + 1)) > u64::MAX);
                if all_digits(d) {
                    lemma_digits_value_grows(d, i - start + 1);
                }
                assert(u64_of(s) is None);
            }
            return None;
        }
        n = n * 10 + dg;
        i = i + 1;
    }
    assert(d.take(d.len() as int) =~= d);
    Some(n)
}

/// The bounds of the number part of `v` and the unit, as [`duration_parts`].
fn split_duration(v: &Vec<char>) -> (r: (usize, usize, char))
    ensures
        r.0 <= r.1 <= v@.len(),
        duration_parts(v@) == (v@.subrange(r.0 as int, r.1 as int), r.2),
{
    let (i, j) = trim_bounds(v, 0, v.len());
    assert(v@.subrange(0, v@.len() as int) =~= v@);
    let ghost t = v@.subrange(i as int, j as int);
    if j > i && ascii_alpha(v[j - 1]) {
        assert(t.drop_last() =~= v@.subrange(i as int, j - 1));
        (i, j - 1, to_ascii_lower(v[j - 1]))
    } else {
        (i, j, 'd')
    }
}

fn days_per_unit(unit: char) -> (r: Option<u64>)
    ensures
        match r {
            Some(m) => unit_days(unit) == Some(m as int) && 1 <= m <= 365,
            None => unit_days(unit) is None,
        },
{
    if unit == 'd' {
        Some(1)
    } else if unit == 'w' {
        Some(7)
    } else if unit == 'm' {
        Some(30)
    } else if unit == 'y' {
        Some(365)
    } else {
        None
    }
}

/// Parses an age like `30d`, `2w`, `6m`, `1y` into seconds. A bare number is
/// days; months and years are approximate (30/365 days).
pub fn parse_duration(s: &str) -> (r: Result<u64, DurationError>)
    requires
        duration_fits(s@),
    ensures
        match r {
            Ok(v) => duration_secs(s@) == Ok::<int, DurationError>(v as int),
            Err(e) => duration_secs(s@) == Err::<int, DurationError>(e),
        },
{
    let v = chars_of(s);
    let (i, end, unit) = split_duration(&v);
    let n = match parse_u64(&v, i, end) {
        Some(n) => n,
        None => return Err(DurationError::InvalidNumber),
    };
    let days_per = match days_per_unit(unit) {
        Some(m) => m,
        None => return Err(DurationError::InvalidUnit),
    };
    assert(n * days_per * 86400 <= u64::MAX);
    assert(n * days_per <= u64::MAX) by (nonlinear_arith)
        requires
            n * days_per * 86400 <= u64::MAX,
            n >= 0,
            days_per >= 1,
    ;
    let days = n * days_per;
    assert(days * 24 * 60 * 60 == n * days_per * 86400) by (nonlinear_arith)
        requires
            days == n * days_per,
    ;
    Ok(days * 24 * 60 * 60)
}

/// Whether [`parse_duration`] can take `s`: the age it names, if any, fits
/// in a `u64` number of seconds.
pub fn duration_in_range(s: &str) -> (r: bool)
    ensures
        r == duration_fits(s@),
{
    let v = chars_of(s);
    let (i, end, unit) = split_duration(&v);
    let n = match parse_u64(&v, i, end) {
        Some(n) => n,
        None => return true,
    };
    let days_per = match days_per_unit(unit) {
        Some(m) => m,
        None => return true,
    };
    let limit: u64 = 18446744073709551615u64 / 86400u64 / days_per;
    assert(n <= limit <==> n * days_per * 86400 <= u64::MAX) by (nonlinear_arith)
        requires
            limit == 18446744073709551615u64 / 86400u64 / days_per,
            days_per >= 1,
            n >= 0,
    ;
    n <= limit
}

/// `--min-mb` in bytes.
pub fn min_mb_bytes(min_mb: u64) -> (r: u64)
    requires
        min_mb * 1048576 <= u64::MAX,
    ensures
        r == min_mb * 1048576,
{
    min_mb * 1024 * 1024
}

/// The entries of at least `min_bytes`, in order.
pub open spec fn at_least(es: Seq<Entry>, min_bytes: u64) -> Seq<Entry>
    decreases es.len(),
{
    if es.len() == 0 {
        seq![]
    } else {
        let r = at_least(es.drop_last(), min_bytes);
        if es.last().size_bytes >= min_bytes {
            r.push(es.last())
        } else {
            r
        }
    }
}

/// Keeps the entries of at least `min_bytes`, in order.
pub fn retain_min_size(entries: Vec<Entry>, min_bytes: u64) -> (r: Vec<Entry>)
    ensures
        r@ == at_least(entries@, min_bytes),
{
    let ghost orig = entries@;
    let mut rest = entries;
    let mut out: Vec<Entry> = Vec::new();
    let ghost mut n: int = 0;
    assert(orig.skip(0) =~= orig);
    while rest.len() > 0
        invariant
            0 <= n <= orig.len(),
            rest@ == orig.skip(n),
            out@ == at_least(orig.take(n), min_bytes),
        decreases rest@.len(),
    {
        let e = rest.remove(0);
        assert(rest@ =~= orig.skip(n + 1));
        assert(orig.take(n + 1).drop_last() =~= orig.take(n));
        if e.size_bytes >= min_bytes {
            out.push(e);
        }
        proof {
            n = n + 1;
        }
    }
    assert(orig.take(n) =~= orig);
    out
}

/// Nanoseconds per second.
pub open spec fn nanos_per_sec() -> int {
    1_000_000_000
}

/// An entry last modified at least `threshold_secs` before `now` (both
/// times in nanoseconds since the Unix epoch). An entry of unknown age, or
/// modified after `now`, is not stale.
pub open spec fn is_stale(e: Entry, now: i128, threshold_secs: u64) -> bool {
    match e.last_modified {
        Some(t) => t <= now && now - t >= threshold_secs * nanos_per_sec(),
        None => false,
    }
}

/// The stale entries, in order.
pub open spec fn stale_only(es: Seq<Entry>, now: i128, threshold_secs: u64) -> Seq<Entry>
    decreases es.len(),
{
    if es.len() == 0 {
        seq![]
    } else {
        let r = stale_only(es.drop_last(), now, threshold_secs);
        if is_stale(es.last(), now, threshold_secs) {
            r.push(es.last())
        } else {
            r
        }
    }
}

fn stale(e: &Entry, now: i128, threshold_secs: u64) -> (r: bool)
    ensures
        r == is_stale(*e, now, threshold_secs),
{
    match e.last_modified {
        Some(t) => {
            if t > now {
                return false;
            }
            let limit: i128 = (threshold_secs as i128) * 1_000_000_000;
            match now.checked_sub(t) {
                Some(age) => age >= limit,
                None => true,
            }
        },
        None => false,
    }
}

/// Keeps the entries last modified at least `threshold_secs` before `now`
/// (nanoseconds since the Unix epoch), in order: `--older-than`.
pub fn retain_older_than(entries: Vec<Entry>, now: i128, threshold_secs: u64) -> (r: Vec<Entry>)
    ensures
        r@ == stale_only(entries@, now, threshold_secs),
{
    let ghost orig = entries@;
    let mut rest = entries;
    let mut out: Vec<Entry> = Vec::new();
    let ghost mut n: int = 0;
    assert(orig.skip(0) =~= orig);
    while rest.len() > 0
        invariant
            0 <= n <= orig.len(),
            rest@ == orig.skip(n),
            out@ == stale_only(orig.take(n), now, threshold_secs),
        decreases rest@.len(),
    {
        let e = rest.remove(0);
        assert(rest@ =~= orig.skip(n + 1));
        assert(orig.take(n + 1).drop_last() =~= orig.take(n));
        if stale(&e, now, threshold_secs) {
            out.push(e);
        }
        proof {
            n = n + 1;
        }
    }
    assert(orig.take(n) =~= orig);
    out
}

/// The total size of the entries.
pub fn total_size(entries: &[Entry]) -> (r: u64)
    requires
        sum_sizes(entries@) <= u64::MAX,
    ensures
        r == sum_sizes(entries@),
{
    let mut total: u64 = 0;
    let mut i: usize = 0;
    while i < entries.len()
        invariant
            i <= entries@.len(),
            sum_sizes(entries@) <= u64::MAX,
            total == sum_sizes(entries@.take(i as int)),
        decreases entries@.len() - i,
    {
        assert(entries@.take(i + 1).drop_last() =~= entries@.take(i as int));
        proof {
            lemma_sum_prefix(entries@, i + 1);
        }
        total = total + entries[i].size_bytes;
        i = i + 1;
    }
    assert(entries@.take(i as int) =~= entries@);
    total
}

proof fn lemma_sum_prefix(es: Seq<Entry>, n: int)
    requires
        0 <= n <= es.len(),
    ensures
        0 <= sum_sizes(es.take(n)) <= sum_sizes(es),
    decreases es.len() - n,
{
    if n < es.len() {
        lemma_sum_prefix(es, n + 1);
        assert(es.take(n + 1).drop_last() =~= es.take(n));
        lemma_sum_nonneg(es.take(n));
    } else {
        assert(es.take(n) =~= es);
        lemma_sum_nonneg(es);
    }
}

proof fn lemma_sum_nonneg(es: Seq<Entry>)
    ensures
        0 <= sum_sizes(es),
    decreases es.len(),
{
    if es.len() > 0 {
        lemma_sum_nonneg(es.drop_last());
    }
}

/// What the `delete` command does before deleting anything.
#[derive(Debug, Clone, Copy, PartialEq, Eq, Structural)]
pub enum DeleteCommandStep {
    /// No path was given: fail.
    NoPaths,
    /// `--dry-run`: list what would be deleted, delete nothing.
    Preview,
    /// Neither `--yes` nor `--dry-run`: refuse.
    NeedsConfirmation,
    /// Delete each path.
    Proceed,
}

/// The `delete` command's gate: paths are required; `--dry-run` only
/// previews; without `--yes` nothing is deleted.
pub fn plan_delete_command(path_count: usize, dry_run: bool, yes: bool) -> (r: DeleteCommandStep)
    ensures
        path_count == 0 ==> r == DeleteCommandStep::NoPaths,
        path_count > 0 && dry_run ==> r == DeleteCommandStep::Preview,
        path_count > 0 && !dry_run && !yes ==> r == DeleteCommandStep::NeedsConfirmation,
        path_count > 0 && !dry_run && yes ==> r == DeleteCommandStep::Proceed,
{
    if path_count == 0 {
        DeleteCommandStep::NoPaths
    } else if dry_run {
        DeleteCommandStep::Preview
    } else if !yes {
        DeleteCommandStep::NeedsConfirmation
    } else {
        DeleteCommandStep::Proceed
    }
}

/// The `delete` command's exit status: failure when any deletion failed
/// (`succeeded[i]` tells whether the `i`-th path was deleted), success
/// otherwise.
pub fn delete_command_failed(succeeded: &[bool]) -> (r: bool)
    ensures
        r == exists|i: int| 0 <= i < succeeded@.len() && !#[trigger] succeeded@[i],
{
    let mut i: usize = 0;
    while i < succeeded.len()
        invariant
            i <= succeeded@.len(),
            forall|k: int| 0 <= k < i ==> #[trigger] succeeded@[k],
        decreases succeeded@.len() - i,
    {
        if !succeeded[i] {
            return true;
        }
        i = i + 1;
    }
    false
}

/// Why the desktop app's delete request is refused.
#[derive(Debug)]
pub enum DeleteRequestError {
    /// The mode is not `trash`, `archive` or `permanent`; the value given.
    UnknownMode(String),
    /// There is not one size per path.
    LengthMismatch,
}

/// Checks the desktop app's delete request: the mode must be named, then
/// there must be one size per path.
pub fn check_delete_request(mode: &str, path_count: usize, size_count: usize) -> (r: Result<
    DeleteMode,
    DeleteRequestError,
>)
    ensures
        match r {
            Ok(m) => delete_mode_named(mode@) == Some(m) && path_count == size_count,
            Err(DeleteRequestError::UnknownMode(s)) => delete_mode_named(mode@) is None && s@
                == mode@,
            Err(DeleteRequestError::LengthMismatch) => delete_mode_named(mode@) is Some
                && path_count != size_count,
        },
{
    let m = match parse_delete_mode(mode) {
        Some(m) => m,
        None => return Err(DeleteRequestError::UnknownMode(mode.to_string())),
    };
    if path_count != size_count {
        return Err(DeleteRequestError::LengthMismatch);
    }
    Ok(m)
}

/// `Debug` text of a package manager.
pub open spec fn manager_name(pm: crate::model::PackageManager) -> Seq<char> {
    match pm {
        crate::model::PackageManager::Npm => "Npm"@,
        crate::model::PackageManager::Yarn => "Yarn"@,
        crate::model::PackageManager::Pnpm => "Pnpm"@,
        crate::model::PackageManager::Unknown => "Unknown"@,
    }
}

/// `s` padded with spaces on the right to at least `width` characters
/// (`{:<width}`).
pub open spec fn pad_right(s: Seq<char>, width: nat) -> Seq<char> {
    if s.len() >= width {
        s
    } else {
        s + Seq::new((width - s.len()) as nat, |i: int| ' ')
    }
}

/// How a scan result's kind is shown: the label, and for a `node_modules`
/// with a known package-manager field the label padded to 14 columns and the
/// manager in parentheses.
pub open spec fn kind_display_of(e: Entry) -> Seq<char> {
    match e.package_manager {
        Some(pm) => pad_right(crate::model::label_of(e.kind), 14) + " ("@ + manager_name(pm) + ")"@,
        None => crate::model::label_of(e.kind),
    }
}

/// The kind column of the scan listing (see [`kind_display_of`]).
pub fn kind_display(e: &Entry) -> (r: String)
    ensures
        r@ == kind_display_of(*e),
{
    proof {
        reveal_strlit(" (");
        reveal_strlit(")");
    }
    let label = chars_of(e.kind.label());
    match e.package_manager {
        Some(pm) => {
            let mut v: Vec<char> = Vec::new();
            crate::text::push_all(&mut v, &label);
            while v.len() < 14
                invariant
                    label@.len() <= 14 ==> v@ == label@ + Seq::new(
                        (v@.len() - label@.len()) as nat,
                        |i: int| ' ',
                    ),
                    label@.len() > 14 ==> v@ == label@,
                    v@.len() >= label@.len(),
                    v@.len() <= 14 || v@ == label@,
                decreases 14 - v@.len(),
            {
                let ghost before = v@;
                v.push(' ');
                assert(v@ =~= label@ + Seq::new((v@.len() - label@.len()) as nat, |i: int| ' '));
            }
            assert(v@ =~= pad_right(label@, 14));
            crate::text::push_all(&mut v, &chars_of(" ("));
            let name = match pm {
                crate::model::PackageManager::Npm => "Npm",
                crate::model::PackageManager::Yarn => "Yarn",
                crate::model::PackageManager::Pnpm => "Pnpm",
                crate::model::PackageManager::Unknown => "Unknown",
            };
            crate::text::push_all(&mut v, &chars_of(name));
            crate::text::push_all(&mut v, &chars_of(")"));
            crate::text::string_of(&v)
        },
        None => e.kind.label().to_string(),
    }
}

/// The file name of a backup archive written by `DeleteMode::Archive`.
pub open spec fn is_backup_name(name: Seq<char>) -> bool {
    crate::ignorefile::ends_with(name, "-backup.tar.gz"@)
}

/// Whether a file name is that of a backup archive (ends with
/// `-backup.tar.gz`); the restore screens list such files.
pub fn is_backup_archive_name(name: &str) -> (r: bool)
    ensures
        r == is_backup_name(name@),
{
    let v = chars_of(name);
    let suffix = chars_of("-backup.tar.gz");
    if suffix.len() > v.len() {
        return false;
    }
    crate::text::range_eq(&v, v.len() - suffix.len(), v.len(), &suffix)
}

} // verus!
