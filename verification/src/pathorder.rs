//! The order and equality of `Path` values: paths compare by their
//! components, lexicographically, and a component compares first by its kind
//! (root, `.`, `..`, normal name) and then by its text. Each path is given a
//! key, a sequence of integers whose lexicographic order is that order.
use vstd::prelude::*;
use crate::text::chars_of;
use crate::paths::{components_exec, dot_dot, path_components, views};

verus! {

/// Rank of a component's kind, in the order of `std::path::Component`.
pub open spec fn comp_rank(c: Seq<char>) -> int {
    if c == seq!['/'] {
        1
    } else if c == seq!['.'] {
        2
    } else if c == dot_dot() {
        3
    } else {
        4
    }
}

/// Each character as its code point plus one, so that the terminator `0`
/// sorts below every character.
pub open spec fn char_codes(c: Seq<char>) -> Seq<int> {
    c.map_values(|ch: char| (ch as u32) as int + 1)
}

/// Key of one component: its rank, its characters, a terminator.
pub open spec fn comp_key(c: Seq<char>) -> Seq<int> {
    seq![comp_rank(c)] + char_codes(c) + seq![0int]
}

/// Key of a sequence of components.
pub open spec fn comps_key(cs: Seq<Seq<char>>) -> Seq<int>
    decreases cs.len(),
{
    if cs.len() == 0 {
        seq![]
    } else {
        comps_key(cs.drop_last()) + comp_key(cs.last())
    }
}

/// Key of a path: the keys of its components, one after the other.
pub open spec fn path_key(p: Seq<char>) -> Seq<int> {
    comps_key(path_components(p))
}

/// Lexicographic order on integer sequences; a proper prefix comes first.
pub open spec fn seq_lt(a: Seq<int>, b: Seq<int>) -> bool
    decreases a.len(),
{
    if a.len() == 0 {
        b.len() > 0
    } else if b.len() == 0 {
        false
    } else if a[0] != b[0] {
        a[0] < b[0]
    } else {
        seq_lt(a.drop_first(), b.drop_first())
    }
}

/// No sequence comes before itself.
pub proof fn lemma_seq_lt_irreflexive(a: Seq<int>)
    ensures
        !seq_lt(a, a),
    decreases a.len(),
{
    if a.len() > 0 {
        lemma_seq_lt_irreflexive(a.drop_first());
    }
}

/// The lexicographic order is transitive.
pub proof fn lemma_seq_lt_transitive(a: Seq<int>, b: Seq<int>, c: Seq<int>)
    requires
        seq_lt(a, b),
        seq_lt(b, c),
    ensures
        seq_lt(a, c),
    decreases a.len(),
{
    if a.len() > 0 && b.len() > 0 && c.len() > 0 && a[0] == b[0] && b[0] == c[0] {
        lemma_seq_lt_transitive(a.drop_first(), b.drop_first(), c.drop_first());
    }
}

/// Two different sequences are ordered one way or the other.
pub proof fn lemma_seq_lt_total(a: Seq<int>, b: Seq<int>)
    requires
        a != b,
    ensures
        seq_lt(a, b) || seq_lt(b, a),
    decreases a.len(),
{
    if a.len() == 0 && b.len() == 0 {
        assert(a =~= b);
    }
    if a.len() > 0 && b.len() > 0 && a[0] == b[0] {
        let ad = a.drop_first();
        let bd = b.drop_first();
        assert(ad.len() == a.len() - 1);
        assert(bd.len() == b.len() - 1);
        if ad == bd {
            assert(a.len() == b.len());
            assert(a =~= b) by {
                assert forall|i: int| 0 <= i < a.len() implies a[i] == b[i] by {
                    if i > 0 {
                        assert(a[i] == a.drop_first()[i - 1]);
                        assert(b[i] == b.drop_first()[i - 1]);
                    }
                }
            }
        }
        lemma_seq_lt_total(a.drop_first(), b.drop_first());
    }
}

/// Order of optional keys: no key comes before every key.
pub open spec fn opt_key_lt(a: Option<Seq<int>>, b: Option<Seq<int>>) -> bool {
    match (a, b) {
        (None, Some(_)) => true,
        (Some(x), Some(y)) => seq_lt(x, y),
        _ => false,
    }
}

/// No optional key comes before itself.
pub proof fn lemma_opt_irreflexive(a: Option<Seq<int>>)
    ensures
        !opt_key_lt(a, a),
{
    if let Some(x) = a {
        lemma_seq_lt_irreflexive(x);
    }
}

/// The order of optional keys is transitive.
pub proof fn lemma_opt_transitive(a: Option<Seq<int>>, b: Option<Seq<int>>, c: Option<Seq<int>>)
    requires
        opt_key_lt(a, b),
        opt_key_lt(b, c),
    ensures
        opt_key_lt(a, c),
{
    if a is Some {
        lemma_seq_lt_transitive(a->0, b->0, c->0);
    }
}

/// Two different optional keys are ordered one way or the other.
pub proof fn lemma_opt_total(a: Option<Seq<int>>, b: Option<Seq<int>>)
    requires
        a != b,
    ensures
        opt_key_lt(a, b) || opt_key_lt(b, a),
{
    if a is Some && b is Some {
        lemma_seq_lt_total(a->0, b->0);
    }
}

/// The key as integers.
pub open spec fn ints(v: Seq<u64>) -> Seq<int> {
    v.map_values(|x: u64| x as int)
}

/// Appends the key of component `c` to `key`.
fn push_comp_key(key: &mut Vec<u64>, c: &Vec<char>)
    ensures
        ints(final(key)@) == ints(old(key)@) + comp_key(c@),
{
    let ghost start = ints(key@);
    let rank: u64 = if c.len() == 1 && c[0] == '/' {
        assert(c@ =~= seq!['/']);
        1
    } else if c.len() == 1 && c[0] == '.' {
        assert(c@ =~= seq!['.']);
        assert(c@ != seq!['/']);
        2
    } else if c.len() == 2 && c[0] == '.' && c[1] == '.' {
        assert(c@ =~= dot_dot());
        assert(c@ != seq!['/'] && c@ != seq!['.']);
        3
    } else {
        assert(c@ != seq!['/'] && c@ != seq!['.'] && c@ != dot_dot()) by {
            if c@ == seq!['/'] || c@ == seq!['.'] {
                assert(c@.len() == 1);
            }
            if c@ == dot_dot() {
                assert(c@.len() == 2);
            }
        }
        4
    };
    assert(rank == comp_rank(c@));
    key.push(rank);
    assert(ints(key@) =~= start + seq![comp_rank(c@)]);
    let mut i: usize = 0;
    while i < c.len()
        invariant
            i <= c@.len(),
            ints(key@) == start + seq![comp_rank(c@)] + char_codes(c@.take(i as int)),
        decreases c@.len() - i,
    {
        let cp: u32 = c[i] as u32;
        let code: u64 = (cp as u64) + 1;
        let ghost before = ints(key@);
        key.push(code);
        assert(char_codes(c@.take(i + 1)) =~= char_codes(c@.take(i as int)).push(
            (c@[i as int] as u32) as int + 1,
        ));
        assert(ints(key@) =~= before.push(code as int));
        i = i + 1;
    }
    assert(c@.take(c@.len() as int) =~= c@);
    let ghost before = ints(key@);
    key.push(0);
    assert(ints(key@) =~= before.push(0));
    assert(ints(key@) =~= start + comp_key(c@));
}

/// The key of `path`.
pub fn path_sort_key(path: &str) -> (r: Vec<u64>)
    ensures
        ints(r@) == path_key(path@),
{
    let v = chars_of(path);
    let cs = components_exec(&v);
    let mut key: Vec<u64> = Vec::new();
    let mut i: usize = 0;
    assert(ints(key@) =~= seq![]);
    while i < cs.len()
        invariant
            i <= cs@.len(),
            views(cs@) == path_components(path@),
            ints(key@) == comps_key(views(cs@).take(i as int)),
        decreases cs@.len() - i,
    {
        push_comp_key(&mut key, &cs[i]);
        assert(views(cs@).take(i + 1).drop_last() =~= views(cs@).take(i as int));
        i = i + 1;
    }
    assert(views(cs@).take(cs@.len() as int) =~= views(cs@));
    key
}

/// Result of comparing two keys.
#[derive(Debug, Clone, Copy, PartialEq, Eq, Structural)]
pub enum KeyOrder {
    Less,
    Same,
    Greater,
}

/// Compares two keys lexicographically.
pub fn compare_keys(a: &Vec<u64>, b: &Vec<u64>) -> (r: KeyOrder)
    ensures
        r == KeyOrder::Less <==> seq_lt(ints(a@), ints(b@)),
        r == KeyOrder::Same <==> ints(a@) == ints(b@),
        r == KeyOrder::Greater <==> seq_lt(ints(b@), ints(a@)),
{
    let ghost x = ints(a@);
    let ghost y = ints(b@);
    let mut i: usize = 0;
    assert(x.skip(0) =~= x);
    assert(y.skip(0) =~= y);
    while i < a.len() && i < b.len() && a[i] == b[i]
        invariant
            i <= a@.len(),
            i <= b@.len(),
            x == ints(a@),
            y == ints(b@),
            x.take(i as int) == y.take(i as int),
            seq_lt(x, y) == seq_lt(x.skip(i as int), y.skip(i as int)),
            seq_lt(y, x) == seq_lt(y.skip(i as int), x.skip(i as int)),
        decreases a@.len() - i,
    {
        assert(x.skip(i as int).drop_first() =~= x.skip(i + 1));
        assert(y.skip(i as int).drop_first() =~= y.skip(i + 1));
        assert(x.take(i + 1) =~= x.take(i as int).push(x[i as int]));
        assert(y.take(i + 1) =~= y.take(i as int).push(y[i as int]));
        i = i + 1;
    }
    if i == a.len() && i == b.len() {
        assert(x =~= y) by {
            assert(x.take(i as int) =~= x);
            assert(y.take(i as int) =~= y);
        }
        proof { lemma_seq_lt_irreflexive(x); }
        KeyOrder::Same
    } else if i == a.len() {
        assert(x != y) by {
            assert(x.len() != y.len());
        }
        KeyOrder::Less
    } else if i == b.len() {
        assert(x != y) by {
            assert(x.len() != y.len());
        }
        KeyOrder::Greater
    } else if a[i] < b[i] {
        assert(x[i as int] != y[i as int]);
        KeyOrder::Less
    } else {
        assert(x[i as int] != y[i as int]);
        KeyOrder::Greater
    }
}

/// The key of an optional path.
pub open spec fn opt_path_key(p: Option<String>) -> Option<Seq<int>> {
    match p {
        Some(s) => Some(path_key(s@)),
        None => None,
    }
}

/// The key of an optional path, computed.
pub fn opt_sort_key(p: &Option<String>) -> (r: Option<Vec<u64>>)
    ensures
        match r {
            Some(k) => opt_path_key(*p) == Some(ints(k@)),
            None => p is None,
        },
{
    match p {
        Some(s) => Some(path_sort_key(s.as_str())),
        None => None,
    }
}

/// Compares two optional keys.
pub fn compare_opt_keys(a: &Option<Vec<u64>>, b: &Option<Vec<u64>>) -> (r: KeyOrder)
    ensures
        r == KeyOrder::Less <==> opt_key_lt(opt_ints(*a), opt_ints(*b)),
        r == KeyOrder::Same <==> opt_ints(*a) == opt_ints(*b),
        r == KeyOrder::Greater <==> opt_key_lt(opt_ints(*b), opt_ints(*a)),
{
    match (a, b) {
        (None, None) => KeyOrder::Same,
        (None, Some(_)) => KeyOrder::Less,
        (Some(_), None) => KeyOrder::Greater,
        (Some(x), Some(y)) => compare_keys(x, y),
    }
}

/// An optional key as integers.
pub open spec fn opt_ints(k: Option<Vec<u64>>) -> Option<Seq<int>> {
    match k {
        Some(v) => Some(ints(v@)),
        None => None,
    }
}

/// Whether two paths are equal as `Path` values: same components.
pub fn same_path(a: &str, b: &str) -> (r: bool)
    ensures
        r == (path_components(a@) == path_components(b@)),
{
    let av = chars_of(a);
    let bv = chars_of(b);
    let ac = components_exec(&av);
    let bc = components_exec(&bv);
    if ac.len() != bc.len() {
        assert(views(ac@).len() != views(bc@).len());
        return false;
    }
    let mut i: usize = 0;
    while i < ac.len()
        invariant
            i <= ac@.len() == bc@.len(),
            views(ac@) == path_components(a@),
            views(bc@) == path_components(b@),
            forall|k: int| 0 <= k < i ==> views(ac@)[k] == views(bc@)[k],
        decreases ac@.len() - i,
    {
        if !crate::text::chars_eq(&ac[i], &bc[i]) {
            assert(views(ac@)[i as int] != views(bc@)[i as int]);
            assert(views(ac@) != views(bc@));
            return false;
        }
        i = i + 1;
    }
    assert(views(ac@) =~= views(bc@));
    true
}

} // verus!
