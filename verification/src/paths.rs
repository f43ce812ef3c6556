//! A model of Unix path strings as `std::path::Path` reads them: the
//! component split, `file_name`, `parent` and `join`. Paths are held as
//! `String`s in this library; the specs here say what `Path` does to them.
use vstd::prelude::*;
use crate::text::{chars_of, chars_eq, push_all, string_of};

verus! {

/// The two-character component `..`.
pub open spec fn dot_dot() -> Seq<char> {
    seq!['.', '.']
}

/// Adds the segment in progress to the finished body parts, unless it is
/// empty (a doubled separator) or `.` (which `Path` normalizes away).
pub open spec fn flush_part(done: Seq<Seq<char>>, cur: Seq<char>) -> Seq<Seq<char>> {
    if cur.len() == 0 || cur == seq!['.'] {
        done
    } else {
        done.push(cur)
    }
}

/// State of the left-to-right component split after reading `p`.
pub open spec fn part_state(p: Seq<char>) -> (Seq<Seq<char>>, Seq<char>)
    decreases p.len(),
{
    if p.len() == 0 {
        (seq![], seq![])
    } else {
        let prev = part_state(p.drop_last());
        if p.last() == '/' {
            (flush_part(prev.0, prev.1), seq![])
        } else {
            (prev.0, prev.1.push(p.last()))
        }
    }
}

/// The `Normal` and `ParentDir` components of `p`, in order.
pub open spec fn body_parts(p: Seq<char>) -> Seq<Seq<char>> {
    let st = part_state(p);
    flush_part(st.0, st.1)
}

/// `p` starts at the file-system root.
pub open spec fn has_root(p: Seq<char>) -> bool {
    p.len() > 0 && p[0] == '/'
}

/// `p` starts with a `.` component, which `Path` keeps only in front.
pub open spec fn has_cur_dir(p: Seq<char>) -> bool {
    p.len() > 0 && p[0] == '.' && (p.len() == 1 || p[1] == '/')
}

/// The components of `p` as `Path::components` yields them, each written as
/// its `as_os_str()` text: `/` for the root, `.` for a leading current
/// directory, then the body parts.
pub open spec fn path_components(p: Seq<char>) -> Seq<Seq<char>> {
    (if has_root(p) {
        seq![seq!['/']]
    } else {
        seq![]
    }) + (if has_cur_dir(p) {
        seq![seq!['.']]
    } else {
        seq![]
    }) + body_parts(p)
}

/// `Path::file_name`: the last component when it is a normal name.
pub open spec fn file_name_of(p: Seq<char>) -> Option<Seq<char>> {
    let b = body_parts(p);
    if b.len() > 0 && b.last() != dot_dot() {
        Some(b.last())
    } else {
        None
    }
}

/// Length of the part of `p` before its body: the root or the leading `.`.
pub open spec fn head_len(p: Seq<char>) -> nat {
    if has_root(p) || has_cur_dir(p) {
        1
    } else {
        0
    }
}

/// Removes trailing separators and trailing `.` segments, never cutting into
/// the first `f` characters.
pub open spec fn trim_tail(q: Seq<char>, f: nat) -> Seq<char>
    decreases q.len(),
{
    if q.len() <= f {
        q
    } else if q.last() == '/' {
        trim_tail(q.drop_last(), f)
    } else if q.last() == '.' && (q.len() - 1 == f || q[q.len() - 2] == '/') {
        trim_tail(q.drop_last(), f)
    } else {
        q
    }
}

/// Removes the characters of the last segment, never cutting into the first `f`.
pub open spec fn drop_segment(q: Seq<char>, f: nat) -> Seq<char>
    decreases q.len(),
{
    if q.len() <= f || q.last() == '/' {
        q
    } else {
        drop_segment(q.drop_last(), f)
    }
}

/// `Path::parent`: `None` for an empty path or the root alone; otherwise the
/// text before the last component, without trailing separators.
pub open spec fn parent_of(p: Seq<char>) -> Option<Seq<char>> {
    let f = head_len(p);
    if body_parts(p).len() > 0 {
        Some(trim_tail(drop_segment(trim_tail(p, f), f), f))
    } else if has_cur_dir(p) {
        Some(seq![])
    } else {
        None
    }
}

/// `trim_tail` and `drop_segment` keep a prefix, never shorter than `f`
/// when there is that much.
pub proof fn lemma_trim_tail_prefix(x: Seq<char>, f: nat)
    ensures
        trim_tail(x, f).len() <= x.len(),
        trim_tail(x, f) == x.take(trim_tail(x, f).len() as int),
        trim_tail(x, f).len() >= if x.len() < f { x.len() as int } else { f as int },
        trim_tail(x, f).len() <= f || (trim_tail(x, f).last() != '/' && !(trim_tail(x, f).last()
            == '.' && (trim_tail(x, f).len() - 1 == f || trim_tail(x, f)[trim_tail(x, f).len() - 2]
            == '/'))),
    decreases x.len(),
{
    if x.len() <= f {
        assert(x.take(x.len() as int) =~= x);
    } else if x.last() == '/' || (x.last() == '.' && (x.len() - 1 == f || x[x.len() - 2] == '/')) {
        lemma_trim_tail_prefix(x.drop_last(), f);
        let r = trim_tail(x, f);
        assert(x.drop_last().take(r.len() as int) =~= x.take(r.len() as int));
    } else {
        assert(x.take(x.len() as int) =~= x);
    }
}

pub proof fn lemma_drop_segment_prefix(x: Seq<char>, f: nat)
    ensures
        drop_segment(x, f).len() <= x.len(),
        drop_segment(x, f) == x.take(drop_segment(x, f).len() as int),
        drop_segment(x, f).len() >= if x.len() < f { x.len() as int } else { f as int },
    decreases x.len(),
{
    if x.len() <= f || x.last() == '/' {
        assert(x.take(x.len() as int) =~= x);
    } else {
        lemma_drop_segment_prefix(x.drop_last(), f);
        let r = drop_segment(x, f);
        assert(x.drop_last().take(r.len() as int) =~= x.take(r.len() as int));
    }
}

/// Trimming trailing separators and `.` segments keeps the body parts,
/// when the first `f` characters are the path's head (or `f` is 0).
pub proof fn lemma_trim_tail_body(q: Seq<char>, f: nat)
    requires
        f <= 1,
        f == 1 ==> has_root(q) || has_cur_dir(q),
    ensures
        body_parts(trim_tail(q, f)) == body_parts(q),
    decreases q.len(),
{
    if q.len() <= f {
    } else if q.last() == '/' {
        let d = q.drop_last();
        assert(d.len() >= 1 ==> d[0] == q[0]);
        assert(d.len() >= 2 ==> d[1] == q[1]);
        lemma_trim_tail_body(d, f);
    } else if q.last() == '.' && (q.len() - 1 == f || q[q.len() - 2] == '/') {
        let d = q.drop_last();
        assert(d.len() >= 1 ==> d[0] == q[0]);
        assert(d.len() >= 2 ==> d[1] == q[1]);
        lemma_trim_tail_body(d, f);
        let prev = part_state(d);
        assert(prev.1 == Seq::<char>::empty()) by {
            if q.len() - 1 == f {
                if f == 0 {
                    assert(d.len() == 0);
                } else {
                    assert(d.len() == 1);
                    assert(d.last() == q[0]);
                    if has_cur_dir(q) {
                        assert(q[1] == q.last());
                    }
                }
            } else {
                assert(d.last() == q[q.len() - 2]);
            }
        }
        assert(prev.1.push('.') =~= seq!['.']);
    }
}

/// A path with body parts keeps more than its head when trimmed.
pub proof fn lemma_trimmed_keeps_body(p: Seq<char>)
    requires
        body_parts(p).len() > 0,
    ensures
        trim_tail(p, head_len(p)).len() > head_len(p),
        body_parts(trim_tail(p, head_len(p))) == body_parts(p),
{
    let f = head_len(p);
    let a = trim_tail(p, f);
    lemma_trim_tail_body(p, f);
    lemma_trim_tail_prefix(p, f);
    let e = Seq::<char>::empty();
    assert(part_state(e) == (Seq::<Seq<char>>::empty(), e));
    if a.len() <= f {
        if a.len() == 0 {
            assert(a =~= e);
        } else {
            assert(a[0] == p[0]);
            assert(a.drop_last() =~= e);
            if p[0] == '.' {
                assert(e.push('.') =~= seq!['.']);
                assert(part_state(a) == (Seq::<Seq<char>>::empty(), e.push('.')));
            } else {
                assert(part_state(a) == (Seq::<Seq<char>>::empty(), e));
            }
        }
    }
}

/// A parent is strictly shorter than its path.
pub proof fn lemma_parent_shorter(p: Seq<char>)
    requires
        parent_of(p) is Some,
    ensures
        parent_of(p)->0.len() < p.len(),
{
    let f = head_len(p);
    if body_parts(p).len() > 0 {
        let a = trim_tail(p, f);
        lemma_trimmed_keeps_body(p);
        lemma_trim_tail_prefix(p, f);
        lemma_drop_segment_prefix(a.drop_last(), f);
        let b = drop_segment(a, f);
        lemma_trim_tail_prefix(b, f);
    }
}

/// `Path::join`: an absolute `q` replaces `base`; otherwise `q` is appended,
/// with a separator unless `base` is empty or already ends with one.
pub open spec fn join_of(base: Seq<char>, q: Seq<char>) -> Seq<char> {
    if has_root(q) {
        q
    } else if base.len() > 0 && base.last() != '/' {
        base + seq!['/'] + q
    } else {
        base + q
    }
}

/// The text of each vector.
pub open spec fn views(v: Seq<Vec<char>>) -> Seq<Seq<char>> {
    v.map_values(|x: Vec<char>| x@)
}

/// The text of each string.
pub open spec fn string_views(v: Seq<String>) -> Seq<Seq<char>> {
    v.map_values(|x: String| x@)
}

fn flush_exec(done: &mut Vec<Vec<char>>, cur: Vec<char>)
    ensures
        views(final(done)@) == flush_part(views(old(done)@), cur@),
{
    let skip = cur.len() == 0 || (cur.len() == 1 && cur[0] == '.');
    if skip {
        assert(cur@.len() == 0 || cur@ =~= seq!['.']);
    } else {
        assert(cur@ != seq!['.']);
        done.push(cur);
        assert(views(done@) =~= views(old(done)@).push(cur@));
    }
}

/// The body parts of `v`.
pub fn body_parts_exec(v: &Vec<char>) -> (r: Vec<Vec<char>>)
    ensures
        views(r@) == body_parts(v@),
{
    let mut done: Vec<Vec<char>> = Vec::new();
    let mut cur: Vec<char> = Vec::new();
    let mut i: usize = 0;
    assert(views(done@) =~= seq![]);
    assert(v@.take(0) =~= seq![]);
    while i < v.len()
        invariant
            i <= v@.len(),
            views(done@) == part_state(v@.take(i as int)).0,
            cur@ == part_state(v@.take(i as int)).1,
        decreases v@.len() - i,
    {
        assert(v@.take(i + 1).drop_last() =~= v@.take(i as int));
        assert(v@.take(i + 1).last() == v@[i as int]);
        if v[i] == '/' {
            let mut c: Vec<char> = Vec::new();
            std::mem::swap(&mut cur, &mut c);
            flush_exec(&mut done, c);
        } else {
            cur.push(v[i]);
        }
        i = i + 1;
    }
    assert(v@.take(v@.len() as int) =~= v@);
    flush_exec(&mut done, cur);
    done
}

/// The components of `v`, as [`path_components`] describes them.
pub fn components_exec(v: &Vec<char>) -> (r: Vec<Vec<char>>)
    ensures
        views(r@) == path_components(v@),
{
    let mut r: Vec<Vec<char>> = Vec::new();
    let root = v.len() > 0 && v[0] == '/';
    let cur = v.len() > 0 && v[0] == '.' && (v.len() == 1 || v[1] == '/');
    if root {
        let mut c: Vec<char> = Vec::new();
        c.push('/');
        r.push(c);
        assert(views(r@) =~= seq![seq!['/']]);
    }
    if cur {
        let mut c: Vec<char> = Vec::new();
        c.push('.');
        r.push(c);
        assert(views(r@) =~= seq![seq!['.']]);
    }
    let ghost head = views(r@);
    assert(head =~= (if has_root(v@) {
        seq![seq!['/']]
    } else {
        seq![]
    }) + (if has_cur_dir(v@) {
        seq![seq!['.']]
    } else {
        seq![]
    }));
    let body = body_parts_exec(v);
    let mut i: usize = 0;
    while i < body.len()
        invariant
            i <= body@.len(),
            views(body@) == body_parts(v@),
            views(r@) == head + views(body@).take(i as int),
        decreases body@.len() - i,
    {
        let mut c: Vec<char> = Vec::new();
        push_all(&mut c, &body[i]);
        assert(c@ =~= body@[i as int]@);
        let ghost before = r@;
        r.push(c);
        assert(views(r@) =~= views(before).push(body@[i as int]@));
        assert(views(r@) =~= head + views(body@).take(i + 1));
        i = i + 1;
    }
    assert(views(body@).take(body@.len() as int) =~= views(body@));
    r
}

/// `Path::components` of `path`, each as its text.
pub fn components(path: &str) -> (r: Vec<String>)
    ensures
        string_views(r@) == path_components(path@),
{
    let v = chars_of(path);
    let cs = components_exec(&v);
    let mut r: Vec<String> = Vec::new();
    let mut i: usize = 0;
    while i < cs.len()
        invariant
            i <= cs@.len(),
            views(cs@) == path_components(path@),
            string_views(r@) == views(cs@).take(i as int),
        decreases cs@.len() - i,
    {
        let s = string_of(&cs[i]);
        let ghost before = r@;
        r.push(s);
        assert(string_views(r@) =~= string_views(before).push(cs@[i as int]@));
        assert(string_views(r@) =~= views(cs@).take(i + 1));
        i = i + 1;
    }
    assert(views(cs@).take(cs@.len() as int) =~= views(cs@));
    r
}

/// Length of `trim_tail(v[..len], f)`.
fn trim_tail_len(v: &Vec<char>, len: usize, f: usize) -> (r: usize)
    requires
        len <= v@.len(),
        f <= len,
    ensures
        f <= r <= len,
        trim_tail(v@.take(len as int), f as nat) == v@.take(r as int),
{
    let mut n = len;
    while n > f && (v[n - 1] == '/' || (v[n - 1] == '.' && (n - 1 == f || v[n - 2] == '/')))
        invariant
            f <= n <= len <= v@.len(),
            trim_tail(v@.take(len as int), f as nat) == trim_tail(v@.take(n as int), f as nat),
        decreases n,
    {
        assert(v@.take(n - 1) =~= v@.take(n as int).drop_last());
        n = n - 1;
    }
    n
}

/// Length of `drop_segment(v[..len], f)`.
fn drop_segment_len(v: &Vec<char>, len: usize, f: usize) -> (r: usize)
    requires
        len <= v@.len(),
        f <= len,
    ensures
        f <= r <= len,
        drop_segment(v@.take(len as int), f as nat) == v@.take(r as int),
{
    let mut n = len;
    while n > f && v[n - 1] != '/'
        invariant
            f <= n <= len <= v@.len(),
            drop_segment(v@.take(len as int), f as nat) == drop_segment(
                v@.take(n as int),
                f as nat,
            ),
        decreases n,
    {
        assert(v@.take(n - 1) =~= v@.take(n as int).drop_last());
        n = n - 1;
    }
    n
}

/// Length of the head of `v` (see [`head_len`]).
pub fn head_len_exec(v: &Vec<char>) -> (r: usize)
    ensures
        r == head_len(v@),
{
    if (v.len() > 0 && v[0] == '/') || (v.len() > 0 && v[0] == '.' && (v.len() == 1 || v[1]
        == '/')) {
        1
    } else {
        0
    }
}

/// Characters of `Path::parent` of `v`, when there is one.
pub fn parent_chars(v: &Vec<char>) -> (r: Option<Vec<char>>)
    ensures
        match r {
            Some(q) => parent_of(v@) == Some(q@),
            None => parent_of(v@) is None,
        },
{
    let f = head_len_exec(v);
    let body = body_parts_exec(v);
    assert(v@.take(v@.len() as int) =~= v@);
    if body.len() > 0 {
        let n1 = trim_tail_len(v, v.len(), f);
        let n2 = drop_segment_len(v, n1, f);
        assert(v@.take(n1 as int).take(n2 as int) =~= v@.take(n2 as int));
        let n3 = trim_tail_len(v, n2, f);
        let mut q: Vec<char> = Vec::new();
        let mut i: usize = 0;
        while i < n3
            invariant
                n3 <= v@.len(),
                i <= n3,
                q@ == v@.take(i as int),
            decreases n3 - i,
        {
            q.push(v[i]);
            assert(q@ =~= v@.take(i + 1));
            i = i + 1;
        }
        Some(q)
    } else if v.len() > 0 && v[0] == '.' && (v.len() == 1 || v[1] == '/') {
        Some(Vec::new())
    } else {
        None
    }
}

/// `Path::parent` of `path`.
pub fn parent(path: &str) -> (r: Option<String>)
    ensures
        match r {
            Some(q) => parent_of(path@) == Some(q@),
            None => parent_of(path@) is None,
        },
{
    let v = chars_of(path);
    match parent_chars(&v) {
        Some(q) => Some(string_of(&q)),
        None => None,
    }
}

/// Characters of `Path::file_name` of `v`, when there is one.
pub fn file_name_chars(v: &Vec<char>) -> (r: Option<Vec<char>>)
    ensures
        match r {
            Some(n) => file_name_of(v@) == Some(n@),
            None => file_name_of(v@) is None,
        },
{
    let mut body = body_parts_exec(v);
    let ghost b = views(body@);
    match body.pop() {
        Some(last) => {
            assert(last@ == b.last());
            let dd = vec!['.', '.'];
            assert(dd@ =~= dot_dot());
            if chars_eq(&last, &dd) {
                None
            } else {
                Some(last)
            }
        },
        None => None,
    }
}

/// `Path::file_name` of `path`, as text.
pub fn file_name(path: &str) -> (r: Option<String>)
    ensures
        match r {
            Some(n) => file_name_of(path@) == Some(n@),
            None => file_name_of(path@) is None,
        },
{
    let v = chars_of(path);
    match file_name_chars(&v) {
        Some(n) => Some(string_of(&n)),
        None => None,
    }
}

/// Characters of `Path::join(base, q)`.
pub fn join_chars(base: &Vec<char>, q: &Vec<char>) -> (r: Vec<char>)
    ensures
        r@ == join_of(base@, q@),
{
    let mut r: Vec<char> = Vec::new();
    if q.len() > 0 && q[0] == '/' {
        push_all(&mut r, q);
        assert(r@ =~= q@);
        return r;
    }
    push_all(&mut r, base);
    if base.len() > 0 && base[base.len() - 1] != '/' {
        r.push('/');
    }
    push_all(&mut r, q);
    assert(seq![] + base@ =~= base@);
    assert(base@ + seq!['/'] + q@ =~= base@.push('/') + q@);
    r
}

/// `Path::join(base, q)`, as text.
pub fn join(base: &str, q: &str) -> (r: String)
    ensures
        r@ == join_of(base@, q@),
{
    let b = chars_of(base);
    let c = chars_of(q);
    string_of(&join_chars(&b, &c))
}

} // verus!
