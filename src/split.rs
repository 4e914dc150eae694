use vstd::prelude::*;

use crate::chars::{is_whitespace, is_ws, string_of};

verus! {

/// What separates the pieces of a field.
#[derive(Clone, Copy, PartialEq, Eq, Debug)]
pub enum Delim {
    Whitespace,
    Slash,
}

pub open spec fn is_delim(d: Delim, c: char) -> bool {
    match d {
        Delim::Whitespace => is_ws(c),
        Delim::Slash => c == '/',
    }
}

/// Whether `c` separates pieces under `d`.
pub fn delim_matches(d: Delim, c: char) -> (r: bool)
    ensures
        r == is_delim(d, c),
{
    match d {
        Delim::Whitespace => is_whitespace(c),
        Delim::Slash => c == '/',
    }
}

/// The pieces of `x` between delimiters, empty pieces included: one more piece
/// than there are delimiters.
pub open spec fn pieces(x: Seq<char>, d: Delim) -> Seq<Seq<char>>
    decreases x.len(),
{
    if x.len() == 0 {
        seq![Seq::<char>::empty()]
    } else {
        let p = pieces(x.drop_last(), d);
        if is_delim(d, x.last()) {
            p.push(Seq::<char>::empty())
        } else {
            p.update(p.len() - 1, p.last().push(x.last()))
        }
    }
}

/// `ps` without its empty pieces, in order.
pub open spec fn drop_empty(ps: Seq<Seq<char>>) -> Seq<Seq<char>>
    decreases ps.len(),
{
    if ps.len() == 0 {
        ps
    } else {
        let r = drop_empty(ps.drop_last());
        if ps.last().len() > 0 {
            r.push(ps.last())
        } else {
            r
        }
    }
}

/// The non-empty pieces of `x` between delimiters, in order.
pub open spec fn split_nonempty(x: Seq<char>, d: Delim) -> Seq<Seq<char>> {
    drop_empty(pieces(x, d))
}

/// The characters of each string.
pub open spec fn views(v: Seq<String>) -> Seq<Seq<char>> {
    v.map_values(|s: String| s@)
}

/// The non-empty pieces of `cs[lo..hi]` between delimiters, in order.
pub fn split_nonempty_of(cs: &Vec<char>, lo: usize, hi: usize, d: Delim) -> (r: Vec<String>)
    requires
        lo <= hi <= cs@.len(),
    ensures
        views(r@) == split_nonempty(cs@.subrange(lo as int, hi as int), d),
{
    let mut r: Vec<String> = Vec::new();
    let mut start: usize = lo;
    let mut i: usize = lo;
    let ghost mut done: Seq<Seq<char>> = seq![];
    assert(cs@.subrange(lo as int, lo as int) =~= Seq::<char>::empty());
    assert(pieces(cs@.subrange(lo as int, lo as int), d) =~~= done.push(
        cs@.subrange(start as int, i as int),
    ));
    while i < hi
        invariant
            lo <= start <= i <= hi <= cs@.len(),
            pieces(cs@.subrange(lo as int, i as int), d) == done.push(
                cs@.subrange(start as int, i as int),
            ),
            views(r@) == drop_empty(done),
        decreases hi - i,
    {
        let c = cs[i];
        let ghost x = cs@.subrange(lo as int, i + 1);
        assert(x.drop_last() =~= cs@.subrange(lo as int, i as int));
        assert(x.last() == c);
        if delim_matches(d, c) {
            let ghost cur = cs@.subrange(start as int, i as int);
            if start < i {
                let ghost before = r@;
                let s = string_of(cs, start, i);
                r.push(s);
                assert(r@.drop_last() =~= before);
                assert(views(r@) =~= views(before).push(cur));
            }
            proof {
                let nd = done.push(cur);
                assert(nd.drop_last() =~= done);
                done = nd;
            }
            start = i + 1;
            assert(cs@.subrange(start as int, i + 1) =~= Seq::<char>::empty());
            assert(pieces(x, d) =~~= done.push(cs@.subrange(start as int, i + 1)));
        } else {
            assert(cs@.subrange(start as int, i + 1) =~= cs@.subrange(start as int, i as int).push(c));
            assert(pieces(x, d) =~~= done.push(cs@.subrange(start as int, i + 1)));
        }
        i = i + 1;
    }
    let ghost cur = cs@.subrange(start as int, hi as int);
    let ghost all = done.push(cur);
    assert(all.drop_last() =~= done);
    if start < hi {
        let ghost before = r@;
        let s = string_of(cs, start, hi);
        r.push(s);
        assert(views(r@) =~= views(before).push(cur));
    }
    r
}

} // verus!
