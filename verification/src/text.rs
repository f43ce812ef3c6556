//! Character-level text helpers shared by the path model and the parsers:
//! conversion between `str`/`String` and `Vec<char>`, Unicode whitespace
//! trimming, line splitting, splitting at `": "` and decimal rendering.
use vstd::prelude::*;
use vstd::std_specs::iter::IteratorSpec;

verus! {

broadcast use vstd::string::group_string_axioms;

/// `String::push` appends one character to the end of the string.
pub assume_specification[ String::push ](string: &mut String, ch: char)
    ensures
        final(string)@ == old(string)@.push(ch),
;

/// The characters of `s`, in order.
pub fn chars_of(s: &str) -> (v: Vec<char>)
    ensures
        v@ == s@,
{
    let mut v: Vec<char> = Vec::new();
    let mut it = s.chars();
    let ghost total = s@;
    loop
        invariant
            it.remaining() == total.skip(v@.len() as int),
            v@ == total.take(v@.len() as int),
            v@.len() <= total.len(),
        ensures
            v@ == total,
        decreases total.len() - v@.len(),
    {
        match it.next() {
            Some(c) => {
                v.push(c);
            },
            None => {
                assert(total.skip(v@.len() as int).len() == 0);
                assert(v@ =~= total);
                break ;
            },
        }
    }
    v
}

/// A `String` holding exactly the characters `v[from..to]`.
pub fn string_of_range(v: &Vec<char>, from: usize, to: usize) -> (s: String)
    requires
        from <= to <= v@.len(),
    ensures
        s@ == v@.subrange(from as int, to as int),
{
    let mut s = String::new();
    let mut i = from;
    while i < to
        invariant
            from <= i <= to <= v@.len(),
            s@ == v@.subrange(from as int, i as int),
        decreases to - i,
    {
        s.push(v[i]);
        assert(s@ =~= v@.subrange(from as int, i + 1));
        i = i + 1;
    }
    s
}

/// A `String` holding exactly the characters of `v`.
pub fn string_of(v: &Vec<char>) -> (s: String)
    ensures
        s@ == v@,
{
    let s = string_of_range(v, 0, v.len());
    assert(v@.subrange(0, v@.len() as int) =~= v@);
    s
}

/// Appends the characters of `src` to `v`.
pub fn push_all(v: &mut Vec<char>, src: &Vec<char>)
    ensures
        final(v)@ == old(v)@ + src@,
{
    let mut i: usize = 0;
    while i < src.len()
        invariant
            i <= src@.len(),
            v@ == old(v)@ + src@.take(i as int),
        decreases src@.len() - i,
    {
        v.push(src[i]);
        assert(src@.take(i + 1) =~= src@.take(i as int).push(src@[i as int]));
        i = i + 1;
    }
    assert(src@.take(src@.len() as int) =~= src@);
}

/// The Unicode `White_Space` property, which is what `char::is_whitespace`
/// and therefore `str::trim` test.
pub open spec fn is_white_space(c: char) -> bool {
    let n = c as u32;
    ||| 0x09 <= n <= 0x0D
    ||| n == 0x20
    ||| n == 0x85
    ||| n == 0xA0
    ||| n == 0x1680
    ||| 0x2000 <= n <= 0x200A
    ||| n == 0x2028
    ||| n == 0x2029
    ||| n == 0x202F
    ||| n == 0x205F
    ||| n == 0x3000
}

/// Executable counterpart of [`is_white_space`].
pub fn white_space(c: char) -> (b: bool)
    ensures
        b == is_white_space(c),
{
    let n = c as u32;
    (0x09 <= n && n <= 0x0D) || n == 0x20 || n == 0x85 || n == 0xA0 || n == 0x1680 || (0x2000
        <= n && n <= 0x200A) || n == 0x2028 || n == 0x2029 || n == 0x202F || n == 0x205F || n
        == 0x3000
}

/// `s` with leading whitespace removed.
pub open spec fn trim_start(s: Seq<char>) -> Seq<char>
    decreases s.len(),
{
    if s.len() > 0 && is_white_space(s[0]) {
        trim_start(s.drop_first())
    } else {
        s
    }
}

/// `s` with trailing whitespace removed.
pub open spec fn trim_end(s: Seq<char>) -> Seq<char>
    decreases s.len(),
{
    if s.len() > 0 && is_white_space(s.last()) {
        trim_end(s.drop_last())
    } else {
        s
    }
}

/// `s` with whitespace removed from both ends, as `str::trim` does.
pub open spec fn trim(s: Seq<char>) -> Seq<char> {
    trim_end(trim_start(s))
}

/// Index of the first non-whitespace character of `v[from..to]`, or `to`.
fn skip_white_space(v: &Vec<char>, from: usize, to: usize) -> (i: usize)
    requires
        from <= to <= v@.len(),
    ensures
        from <= i <= to,
        trim_start(v@.subrange(from as int, to as int)) == v@.subrange(i as int, to as int),
{
    let mut i = from;
    while i < to && white_space(v[i])
        invariant
            from <= i <= to <= v@.len(),
            trim_start(v@.subrange(from as int, to as int)) == trim_start(
                v@.subrange(i as int, to as int),
            ),
        decreases to - i,
    {
        assert(v@.subrange(i as int, to as int).drop_first() =~= v@.subrange(i + 1, to as int));
        i = i + 1;
    }
    i
}

/// Index one past the last non-whitespace character of `v[from..to]`, or `from`.
fn drop_trailing_white_space(v: &Vec<char>, from: usize, to: usize) -> (j: usize)
    requires
        from <= to <= v@.len(),
    ensures
        from <= j <= to,
        trim_end(v@.subrange(from as int, to as int)) == v@.subrange(from as int, j as int),
{
    let mut j = to;
    while j > from && white_space(v[j - 1])
        invariant
            from <= j <= to <= v@.len(),
            trim_end(v@.subrange(from as int, to as int)) == trim_end(
                v@.subrange(from as int, j as int),
            ),
        decreases j - from,
    {
        assert(v@.subrange(from as int, j as int).drop_last() =~= v@.subrange(
            from as int,
            j - 1,
        ));
        j = j - 1;
    }
    j
}

/// The bounds `(i, j)` such that `v[i..j]` is `v[from..to]` trimmed on both ends.
pub fn trim_bounds(v: &Vec<char>, from: usize, to: usize) -> (r: (usize, usize))
    requires
        from <= to <= v@.len(),
    ensures
        from <= r.0 <= r.1 <= to,
        trim(v@.subrange(from as int, to as int)) == v@.subrange(r.0 as int, r.1 as int),
{
    let i = skip_white_space(v, from, to);
    let j = drop_trailing_white_space(v, i, to);
    (i, j)
}

/// `s.trim()` as a `String`.
pub fn trimmed(s: &str) -> (t: String)
    ensures
        t@ == trim(s@),
{
    let v = chars_of(s);
    let (i, j) = trim_bounds(&v, 0, v.len());
    assert(v@.subrange(0, v@.len() as int) =~= v@);
    string_of_range(&v, i, j)
}

/// Splitting state after reading `s`: the finished lines and the line in progress.
pub open spec fn line_state(s: Seq<char>) -> (Seq<Seq<char>>, Seq<char>)
    decreases s.len(),
{
    if s.len() == 0 {
        (seq![], seq![])
    } else {
        let prev = line_state(s.drop_last());
        if s.last() == '\n' {
            (prev.0.push(prev.1), seq![])
        } else {
            (prev.0, prev.1.push(s.last()))
        }
    }
}

/// The pieces of `s` between line feeds, without a final empty piece: the
/// lines of `str::lines` except that a carriage return before a line feed is
/// kept (every caller trims whitespace, which removes it).
pub open spec fn line_pieces(s: Seq<char>) -> Seq<Seq<char>> {
    let st = line_state(s);
    if st.1.len() == 0 {
        st.0
    } else {
        st.0.push(st.1)
    }
}

/// True for `'a'..='z'` and `'A'..='Z'`.
pub open spec fn is_ascii_alpha(c: char) -> bool {
    ('a' <= c && c <= 'z') || ('A' <= c && c <= 'Z')
}

/// Executable counterpart of [`is_ascii_alpha`].
pub fn ascii_alpha(c: char) -> (b: bool)
    ensures
        b == is_ascii_alpha(c),
{
    ('a' <= c && c <= 'z') || ('A' <= c && c <= 'Z')
}

/// `char::to_ascii_lowercase`.
pub open spec fn ascii_lower(c: char) -> char {
    if 'A' <= c && c <= 'Z' {
        ((c as u32) + 32) as char
    } else {
        c
    }
}

/// Executable counterpart of [`ascii_lower`].
pub fn to_ascii_lower(c: char) -> (d: char)
    ensures
        d == ascii_lower(c),
{
    if 'A' <= c && c <= 'Z' {
        let b: u8 = c as u8;
        let n: u8 = b + 32;
        n as char
    } else {
        c
    }
}

/// True if two character vectors hold the same characters.
pub fn chars_eq(a: &Vec<char>, b: &Vec<char>) -> (r: bool)
    ensures
        r == (a@ == b@),
{
    if a.len() != b.len() {
        return false;
    }
    let mut i: usize = 0;
    while i < a.len()
        invariant
            i <= a@.len() == b@.len(),
            forall|k: int| 0 <= k < i ==> a@[k] == b@[k],
        decreases a@.len() - i,
    {
        if a[i] != b[i] {
            return false;
        }
        i = i + 1;
    }
    assert(a@ =~= b@);
    true
}

/// True if `v[from..to]` holds exactly the characters of `t`.
pub fn range_eq(v: &Vec<char>, from: usize, to: usize, t: &Vec<char>) -> (r: bool)
    requires
        from <= to <= v@.len(),
    ensures
        r == (v@.subrange(from as int, to as int) == t@),
{
    if to - from != t.len() {
        assert(v@.subrange(from as int, to as int).len() != t@.len());
        return false;
    }
    let mut i: usize = 0;
    while i < t.len()
        invariant
            from <= to <= v@.len(),
            to - from == t@.len(),
            i <= t@.len(),
            forall|k: int| 0 <= k < i ==> v@[from + k] == t@[k],
        decreases t@.len() - i,
    {
        if v[from + i] != t[i] {
            assert(v@.subrange(from as int, to as int)[i as int] != t@[i as int]);
            return false;
        }
        i = i + 1;
    }
    assert(v@.subrange(from as int, to as int) =~= t@);
    true
}

/// The decimal digit character of `d` (below 10).
pub open spec fn digit_char(d: nat) -> char {
    seq!['0', '1', '2', '3', '4', '5', '6', '7', '8', '9'][d as int]
}

/// The decimal rendering of `n`, as `{}` formats it.
pub open spec fn decimal(n: nat) -> Seq<char>
    decreases n,
{
    if n < 10 {
        seq![digit_char(n)]
    } else {
        decimal(n / 10).push(digit_char(n % 10))
    }
}

/// Appends the decimal rendering of `n` to `out`.
pub fn push_decimal(out: &mut Vec<char>, n: usize)
    ensures
        final(out)@ == old(out)@ + decimal(n as nat),
    decreases n,
{
    let digits = ['0', '1', '2', '3', '4', '5', '6', '7', '8', '9'];
    assert(digits@ =~= seq!['0', '1', '2', '3', '4', '5', '6', '7', '8', '9']);
    let ghost before = out@;
    if n >= 10 {
        push_decimal(out, n / 10);
    }
    let d = digits[n % 10];
    out.push(d);
    if n >= 10 {
        assert(out@ =~= before + decimal(n as nat));
    } else {
        assert(out@ =~= before + decimal(n as nat));
    }
}

/// The pieces of `s` between the occurrences of `": "`, taken from the left
/// without overlap, as `str::split(": ")` yields them.
pub open spec fn colon_pieces(s: Seq<char>) -> Seq<Seq<char>>
    decreases s.len(),
{
    if s.len() == 0 {
        seq![seq![]]
    } else if s.len() >= 2 && s[0] == ':' && s[1] == ' ' {
        seq![seq![]] + colon_pieces(s.skip(2))
    } else {
        let r = colon_pieces(s.drop_first());
        r.update(0, seq![s[0]] + r[0])
    }
}

/// There is always at least one piece.
pub proof fn lemma_colon_pieces_nonempty(s: Seq<char>)
    ensures
        colon_pieces(s).len() >= 1,
    decreases s.len(),
{
    if s.len() > 0 && !(s.len() >= 2 && s[0] == ':' && s[1] == ' ') {
        lemma_colon_pieces_nonempty(s.drop_first());
    }
}

/// The pieces of `v[i..]` between the occurrences of `": "`.
fn colon_pieces_from(v: &Vec<char>, i: usize) -> (r: Vec<Vec<char>>)
    requires
        i <= v@.len(),
    ensures
        crate::paths::views(r@) == colon_pieces(v@.skip(i as int)),
    decreases v@.len() - i,
{
    let ghost s = v@.skip(i as int);
    if i == v.len() {
        let mut r: Vec<Vec<char>> = Vec::new();
        r.push(Vec::new());
        assert(crate::paths::views(r@) =~= colon_pieces(s));
        return r;
    }
    if i + 1 < v.len() && v[i] == ':' && v[i + 1] == ' ' {
        let mut r = colon_pieces_from(v, i + 2);
        assert(s.skip(2) =~= v@.skip(i + 2));
        let ghost rest = r@;
        r.insert(0, Vec::new());
        assert(crate::paths::views(r@) =~= seq![Seq::<char>::empty()] + crate::paths::views(rest));
        r
    } else {
        let mut r = colon_pieces_from(v, i + 1);
        assert(s.drop_first() =~= v@.skip(i + 1));
        proof {
            lemma_colon_pieces_nonempty(v@.skip(i + 1));
        }
        let ghost rest = crate::paths::views(r@);
        let old_first = r.remove(0);
        let mut first: Vec<char> = Vec::new();
        first.push(v[i]);
        push_all(&mut first, &old_first);
        r.insert(0, first);
        assert(crate::paths::views(r@) =~= rest.update(0, seq![s[0]] + rest[0]));
        r
    }
}

/// The pieces of `s` between the occurrences of `": "`, in order.
pub fn colon_split(s: &str) -> (r: Vec<String>)
    ensures
        crate::paths::string_views(r@) == colon_pieces(s@),
{
    let v = chars_of(s);
    let ps = colon_pieces_from(&v, 0);
    assert(v@.skip(0) =~= v@);
    let ghost pv = crate::paths::views(ps@);
    let mut out: Vec<String> = Vec::new();
    let mut i: usize = 0;
    while i < ps.len()
        invariant
            i <= ps@.len(),
            pv == crate::paths::views(ps@),
            out@.len() == i,
            forall|k: int| 0 <= k < i ==> #[trigger] out@[k]@ == pv[k],
        decreases ps@.len() - i,
    {
        let st = string_of(&ps[i]);
        out.push(st);
        i = i + 1;
    }
    assert(crate::paths::string_views(out@) =~= pv);
    out
}

} // verus!
