use vstd::prelude::*;

use crate::chars::{is_whitespace, is_ws};

verus! {

/// Every character of `l[i..j]` is whitespace.
pub open spec fn all_ws(l: Seq<char>, i: int, j: int) -> bool {
    forall|k: int| i <= k < j ==> is_ws(#[trigger] l[k])
}

/// No character of `l[i..j]` is whitespace.
pub open spec fn no_ws(l: Seq<char>, i: int, j: int) -> bool {
    forall|k: int| i <= k < j ==> !is_ws(#[trigger] l[k])
}

/// No character of `l[i..j]` is `ch`.
pub open spec fn lacks(l: Seq<char>, i: int, j: int, ch: char) -> bool {
    forall|k: int| i <= k < j ==> #[trigger] l[k] != ch
}

/// The line `l` reads `S W T W [X] W /Y/`, cut at the positions `a` to `f`:
/// the simplified headword `S = l[0..a]` and the traditional one `T = l[b..c]`
/// are runs without whitespace, each `W` is a non-empty run of whitespace, the
/// pronunciation block `[X]` spans `l[d..=e]` with no `]` inside, and the
/// definition block `/Y/ = l[f..]` runs to the end of the line without a line feed.
pub open spec fn is_cut(l: Seq<char>, a: int, b: int, c: int, d: int, e: int, f: int) -> bool {
    &&& 0 < a < b < c < d < e
    &&& no_ws(l, 0, a)
    &&& all_ws(l, a, b)
    &&& no_ws(l, b, c)
    &&& all_ws(l, c, d)
    &&& l[d] == '['
    &&& lacks(l, d + 1, e, ']')
    &&& l[e] == ']'
    &&& e + 1 < f
    &&& all_ws(l, e + 1, f)
    &&& f + 2 <= l.len()
    &&& l[f] == '/'
    &&& l[l.len() - 1] == '/'
    &&& lacks(l, f, l.len() as int, '\n')
}

/// Whether the line follows the entry grammar.
pub open spec fn matches_grammar(l: Seq<char>) -> bool {
    exists|a: int, b: int, c: int, d: int, e: int, f: int| is_cut(l, a, b, c, d, e, f)
}

/// The positions at which a scan from the left stops, as `find_cut` computes them.
pub open spec fn scan_facts(
    l: Seq<char>,
    a: int,
    b: int,
    c: int,
    d: int,
    e: int,
    f: int,
    g: int,
) -> bool {
    let n = l.len() as int;
    &&& 0 <= a <= n && no_ws(l, 0, a) && (a == n || is_ws(l[a]))
    &&& a <= b <= n && all_ws(l, a, b) && (b == n || !is_ws(l[b]))
    &&& b <= c <= n && no_ws(l, b, c) && (c == n || is_ws(l[c]))
    &&& c <= d <= n && all_ws(l, c, d) && (d == n || !is_ws(l[d]))
    &&& d < n ==> (d + 1 <= e <= n && lacks(l, d + 1, e, ']') && (e == n || l[e] == ']'))
    &&& e < n ==> (e + 1 <= f <= n && all_ws(l, e + 1, f) && (f == n || !is_ws(l[f])))
    &&& f < n ==> (f <= g <= n && lacks(l, f, g, '\n') && (g == n || l[g] == '\n'))
}

/// A scan from the left stops exactly at the cut, wherever the line has one.
pub proof fn lemma_scan_finds_cut(
    l: Seq<char>,
    a: int,
    b: int,
    c: int,
    d: int,
    e: int,
    f: int,
    g: int,
    a2: int,
    b2: int,
    c2: int,
    d2: int,
    e2: int,
    f2: int,
)
    requires
        scan_facts(l, a, b, c, d, e, f, g),
        is_cut(l, a2, b2, c2, d2, e2, f2),
    ensures
        a == a2 && b == b2 && c == c2 && d == d2 && e == e2 && f == f2 && g == l.len(),
{
    let n = l.len() as int;
    assert(is_ws(l[a2]));
    if a < a2 {
        assert(!is_ws(l[a]));
    }
    assert(a == a2);
    assert(!is_ws(l[b2]));
    if b < b2 {
        assert(is_ws(l[b]));
    }
    assert(b == b2);
    assert(is_ws(l[c2]));
    if c < c2 {
        assert(!is_ws(l[c]));
    }
    assert(c == c2);
    assert(!is_ws(l[d2]));
    if d < d2 {
        assert(is_ws(l[d]));
    }
    assert(d == d2);
    if e < e2 {
        assert(l[e] != ']');
    }
    assert(e == e2);
    assert(!is_ws(l[f2]));
    if f < f2 {
        assert(is_ws(l[f]));
    }
    assert(f == f2);
    if g < n {
        assert(l[g] != '\n');
    }
}

/// A line has at most one cut.
pub proof fn lemma_cut_unique(
    l: Seq<char>,
    a: int,
    b: int,
    c: int,
    d: int,
    e: int,
    f: int,
    a2: int,
    b2: int,
    c2: int,
    d2: int,
    e2: int,
    f2: int,
)
    requires
        is_cut(l, a, b, c, d, e, f),
        is_cut(l, a2, b2, c2, d2, e2, f2),
    ensures
        a == a2 && b == b2 && c == c2 && d == d2 && e == e2 && f == f2,
{
    assert(is_ws(l[a]));
    assert(!is_ws(l[b]));
    assert(is_ws(l[c]));
    assert(!is_ws(l[d]));
    assert(!is_ws(l[f]));
    lemma_scan_finds_cut(l, a, b, c, d, e, f, l.len() as int, a2, b2, c2, d2, e2, f2);
}

/// The first position at or after `i` that holds no whitespace, or the end.
pub fn skip_ws(cs: &Vec<char>, i: usize) -> (j: usize)
    requires
        i <= cs@.len(),
    ensures
        i <= j <= cs@.len(),
        all_ws(cs@, i as int, j as int),
        j == cs@.len() || !is_ws(cs@[j as int]),
{
    let mut j: usize = i;
    while j < cs.len() && is_whitespace(cs[j])
        invariant
            i <= j <= cs@.len(),
            all_ws(cs@, i as int, j as int),
        decreases cs@.len() - j,
    {
        j = j + 1;
    }
    j
}

/// The first whitespace position at or after `i`, or the end.
pub fn skip_non_ws(cs: &Vec<char>, i: usize) -> (j: usize)
    requires
        i <= cs@.len(),
    ensures
        i <= j <= cs@.len(),
        no_ws(cs@, i as int, j as int),
        j == cs@.len() || is_ws(cs@[j as int]),
{
    let mut j: usize = i;
    while j < cs.len() && !is_whitespace(cs[j])
        invariant
            i <= j <= cs@.len(),
            no_ws(cs@, i as int, j as int),
        decreases cs@.len() - j,
    {
        j = j + 1;
    }
    j
}

/// The first position at or after `i` that holds `ch`, or the end.
pub fn find_char(cs: &Vec<char>, i: usize, ch: char) -> (j: usize)
    requires
        i <= cs@.len(),
    ensures
        i <= j <= cs@.len(),
        lacks(cs@, i as int, j as int, ch),
        j == cs@.len() || cs@[j as int] == ch,
{
    let mut j: usize = i;
    while j < cs.len() && cs[j] != ch
        invariant
            i <= j <= cs@.len(),
            lacks(cs@, i as int, j as int, ch),
        decreases cs@.len() - j,
    {
        j = j + 1;
    }
    j
}

/// The cut of the line, if it follows the entry grammar.
pub fn find_cut(cs: &Vec<char>) -> (r: Option<(usize, usize, usize, usize, usize, usize)>)
    ensures
        match r {
            Some((a, b, c, d, e, f)) => is_cut(
                cs@,
                a as int,
                b as int,
                c as int,
                d as int,
                e as int,
                f as int,
            ),
            None => !matches_grammar(cs@),
        },
{
    let n = cs.len();
    let a = skip_non_ws(cs, 0);
    let b = skip_ws(cs, a);
    let c = skip_non_ws(cs, b);
    let d = skip_ws(cs, c);
    let e = if d < n {
        find_char(cs, d + 1, ']')
    } else {
        n
    };
    let f = if e < n {
        skip_ws(cs, e + 1)
    } else {
        n
    };
    let g = if f < n {
        find_char(cs, f, '\n')
    } else {
        n
    };
    assert(scan_facts(cs@, a as int, b as int, c as int, d as int, e as int, f as int, g as int));
    let ok = 0 < a && a < n && b < n && c < n && d < n && cs[d] == '[' && e < n && e + 1 < f
        && f < n && n - f >= 2 && cs[f] == '/' && cs[n - 1] == '/' && g == n;
    if ok {
        Some((a, b, c, d, e, f))
    } else {
        proof {
            if matches_grammar(cs@) {
                let (a2, b2, c2, d2, e2, f2) = choose|
                    a2: int,
                    b2: int,
                    c2: int,
                    d2: int,
                    e2: int,
                    f2: int,
                | is_cut(cs@, a2, b2, c2, d2, e2, f2);
                lemma_scan_finds_cut(
                    cs@,
                    a as int,
                    b as int,
                    c as int,
                    d as int,
                    e as int,
                    f as int,
                    g as int,
                    a2,
                    b2,
                    c2,
                    d2,
                    e2,
                    f2,
                );
            }
        }
        None
    }
}

} // verus!
