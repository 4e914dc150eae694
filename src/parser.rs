use vstd::prelude::*;
use vstd::string::StringExecFns;

use crate::chars::{chars_of, is_ws, string_of};
use crate::grammar::{all_ws, find_cut, is_cut, lemma_cut_unique, matches_grammar};
use crate::split::{split_nonempty, split_nonempty_of, views, Delim};
use crate::utils::{data_dir, data_dir_of, dict_file, dict_file_of, CeOptions};

verus! {

/// One dictionary entry: the two headwords, the pronunciations and the
/// definitions, each list in the order of the source line.
#[derive(Debug, Clone, PartialEq, Eq)]
pub struct CeLine {
    pub simplified: String,
    pub traditional: String,
    pub pinyin: Vec<String>,
    pub definitions: Vec<String>,
}

/// The entries of a dictionary text, in the order of its lines.
#[derive(Debug, Clone, PartialEq, Eq)]
pub struct CeResult {
    pub lines: Vec<CeLine>,
}

/// An entry as sequences of characters.
pub struct LineView {
    pub simplified: Seq<char>,
    pub traditional: Seq<char>,
    pub pinyin: Seq<Seq<char>>,
    pub definitions: Seq<Seq<char>>,
}

impl View for CeLine {
    type V = LineView;

    open spec fn view(&self) -> LineView {
        LineView {
            simplified: self.simplified@,
            traditional: self.traditional@,
            pinyin: views(self.pinyin@),
            definitions: views(self.definitions@),
        }
    }
}

/// The views of a sequence of entries.
pub open spec fn line_views(v: Seq<CeLine>) -> Seq<LineView> {
    v.map_values(|l: CeLine| l@)
}

impl View for CeResult {
    type V = Seq<LineView>;

    open spec fn view(&self) -> Seq<LineView> {
        line_views(self.lines@)
    }
}

/// The entry that a line cut at `a` to `f` holds: the headwords, the
/// whitespace-separated pronunciations inside the brackets, and the non-empty
/// slash-separated definitions.
pub open spec fn line_of_cut(l: Seq<char>, a: int, b: int, c: int, d: int, e: int, f: int) -> LineView {
    LineView {
        simplified: l.subrange(0, a),
        traditional: l.subrange(b, c),
        pinyin: split_nonempty(l.subrange(d + 1, e), Delim::Whitespace),
        definitions: split_nonempty(l.subrange(f, l.len() as int), Delim::Slash),
    }
}

/// A comment line starts with `#`.
pub open spec fn is_comment(l: Seq<char>) -> bool {
    l.len() > 0 && l[0] == '#'
}

/// The entry that a line holds: none for a comment, a blank line or a line
/// outside the grammar.
pub open spec fn parse_line_spec(l: Seq<char>) -> Option<LineView> {
    if is_comment(l) || !matches_grammar(l) {
        None
    } else {
        let (a, b, c, d, e, f) = choose|a: int, b: int, c: int, d: int, e: int, f: int|
            is_cut(l, a, b, c, d, e, f);
        Some(line_of_cut(l, a, b, c, d, e, f))
    }
}

/// The lines of `x` between `\r\n` terminators, as `str::split("\r\n")` gives them.
pub open spec fn crlf_lines(x: Seq<char>) -> Seq<Seq<char>>
    decreases x.len(),
{
    if x.len() == 0 {
        seq![Seq::<char>::empty()]
    } else if x.len() >= 2 && x[x.len() - 2] == '\r' && x.last() == '\n' {
        crlf_lines(x.subrange(0, x.len() - 2)).push(Seq::<char>::empty())
    } else {
        let p = crlf_lines(x.drop_last());
        p.update(p.len() - 1, p.last().push(x.last()))
    }
}

/// The entries of a dictionary text, line by line.
pub open spec fn parse_text_spec(text: Seq<char>) -> Seq<LineView> {
    crlf_lines(text).filter_map(|l: Seq<char>| parse_line_spec(l))
}

/// The view of an optional entry.
pub open spec fn opt_view(r: Option<CeLine>) -> Option<LineView> {
    match r {
        Some(x) => Some(x@),
        None => None,
    }
}

/// A line that follows the grammar and is no comment reads back as its
/// fields: the headwords as they stand, the whitespace-separated
/// pronunciations and the non-empty slash-separated definitions, in order.
pub proof fn lemma_parse_line_fields(l: Seq<char>, a: int, b: int, c: int, d: int, e: int, f: int)
    requires
        is_cut(l, a, b, c, d, e, f),
        !is_comment(l),
    ensures
        parse_line_spec(l) == Some(line_of_cut(l, a, b, c, d, e, f)),
{
    let (a2, b2, c2, d2, e2, f2) = choose|a2: int, b2: int, c2: int, d2: int, e2: int, f2: int|
        is_cut(l, a2, b2, c2, d2, e2, f2);
    lemma_cut_unique(l, a, b, c, d, e, f, a2, b2, c2, d2, e2, f2);
}

/// A comment line, and a line of whitespace alone (the empty line included),
/// hold no entry.
pub proof fn lemma_comment_or_blank_holds_nothing(l: Seq<char>)
    requires
        is_comment(l) || all_ws(l, 0, l.len() as int),
    ensures
        parse_line_spec(l) is None,
{
    if !is_comment(l) && matches_grammar(l) {
        let (a, b, c, d, e, f) = choose|a: int, b: int, c: int, d: int, e: int, f: int|
            is_cut(l, a, b, c, d, e, f);
        assert(is_ws(l[0]));
    }
}

/// A copy of `cs[lo..hi]`.
fn copy_range(cs: &Vec<char>, lo: usize, hi: usize) -> (r: Vec<char>)
    requires
        lo <= hi <= cs@.len(),
    ensures
        r@ == cs@.subrange(lo as int, hi as int),
{
    let mut r: Vec<char> = Vec::new();
    let mut i: usize = lo;
    while i < hi
        invariant
            lo <= i <= hi <= cs@.len(),
            r@ == cs@.subrange(lo as int, i as int),
        decreases hi - i,
    {
        r.push(cs[i]);
        i = i + 1;
        assert(r@ =~= cs@.subrange(lo as int, i as int));
    }
    r
}

/// Reads the entry of one line given as characters.
pub fn parse_chars(cs: &Vec<char>) -> (r: Option<CeLine>)
    ensures
        opt_view(r) == parse_line_spec(cs@),
{
    let n = cs.len();
    if n > 0 && cs[0] == '#' {
        return None;
    }
    match find_cut(cs) {
        None => None,
        Some((a, b, c, d, e, f)) => {
            let line = CeLine {
                simplified: string_of(cs, 0, a),
                traditional: string_of(cs, b, c),
                pinyin: split_nonempty_of(cs, d + 1, e, Delim::Whitespace),
                definitions: split_nonempty_of(cs, f, n, Delim::Slash),
            };
            proof {
                let (a2, b2, c2, d2, e2, f2) = choose|
                    a2: int,
                    b2: int,
                    c2: int,
                    d2: int,
                    e2: int,
                    f2: int,
                | is_cut(cs@, a2, b2, c2, d2, e2, f2);
                lemma_cut_unique(
                    cs@,
                    a as int,
                    b as int,
                    c as int,
                    d as int,
                    e as int,
                    f as int,
                    a2,
                    b2,
                    c2,
                    d2,
                    e2,
                    f2,
                );
            }
            Some(line)
        },
    }
}

/// Where the parser finds the dictionary file.
pub struct CeParser {
    base_path: String,
    data_dir: String,
    dict_file_path: String,
}

impl CeParser {
    pub closed spec fn spec_base_path(&self) -> Seq<char> {
        self.base_path@
    }

    pub closed spec fn spec_data_dir(&self) -> Seq<char> {
        self.data_dir@
    }

    pub closed spec fn spec_dict_file_path(&self) -> Seq<char> {
        self.dict_file_path@
    }

    /// A parser for the dictionary under the current directory.
    pub fn init() -> (r: CeParser)
        ensures
            r.spec_base_path() == "./"@,
            r.spec_data_dir() == data_dir_of("./"@),
            r.spec_dict_file_path() == dict_file_of("./"@),
    {
        let opts = CeOptions { base_path: String::from_str("./") };
        CeParser::init_with_options(&opts)
    }

    /// A parser for the dictionary under `opts.base_path`.
    pub fn init_with_options(opts: &CeOptions) -> (r: CeParser)
        ensures
            r.spec_base_path() == opts.base_path@,
            r.spec_data_dir() == data_dir_of(opts.base_path@),
            r.spec_dict_file_path() == dict_file_of(opts.base_path@),
    {
        CeParser {
            base_path: opts.base_path.clone(),
            data_dir: data_dir(&opts.base_path),
            dict_file_path: dict_file(&opts.base_path),
        }
    }

    pub fn base_path(&self) -> (r: &String)
        ensures
            r@ == self.spec_base_path(),
    {
        &self.base_path
    }

    pub fn data_dir(&self) -> (r: &String)
        ensures
            r@ == self.spec_data_dir(),
    {
        &self.data_dir
    }

    pub fn dict_file_path(&self) -> (r: &String)
        ensures
            r@ == self.spec_dict_file_path(),
    {
        &self.dict_file_path
    }

    /// Reads the entry of one line: `None` for a comment, a blank line, or a
    /// line outside the grammar.
    pub fn parse_line(line: &str) -> (r: Option<CeLine>)
        ensures
            opt_view(r) == parse_line_spec(line@),
    {
        let cs = chars_of(line);
        parse_chars(&cs)
    }

    /// Reads the entries of a dictionary text whose lines end in `\r\n`, in order.
    pub fn parse_text(text: &str) -> (r: CeResult)
        ensures
            r@ == parse_text_spec(text@),
    {
        let cs = chars_of(text);
        let n = cs.len();
        let mut lines: Vec<CeLine> = Vec::new();
        let mut start: usize = 0;
        let mut i: usize = 0;
        let ghost mut done: Seq<Seq<char>> = seq![];
        let ghost f = |l: Seq<char>| parse_line_spec(l);
        assert(cs@.subrange(0, 0) =~= Seq::<char>::empty());
        assert(crlf_lines(cs@.subrange(0, 0)) =~~= done.push(cs@.subrange(0, 0)));
        while i < n
            invariant
                n == cs@.len(),
                cs@ == text@,
                f == (|l: Seq<char>| parse_line_spec(l)),
                start <= i <= n,
                crlf_lines(cs@.subrange(0, i as int)) == done.push(
                    cs@.subrange(start as int, i as int),
                ),
                line_views(lines@) == done.filter_map(f),
                0 < i < n ==> !(cs@[i - 1] == '\r' && cs@[i as int] == '\n'),
            decreases n - i,
        {
            let ghost cur = cs@.subrange(start as int, i as int);
            if i + 1 < n && cs[i] == '\r' && cs[i + 1] == '\n' {
                let one = copy_range(&cs, start, i);
                let parsed = parse_chars(&one);
                let ghost before = lines@;
                match parsed {
                    Some(l) => {
                        lines.push(l);
                        assert(line_views(lines@) =~= line_views(before) + seq![l@]);
                    },
                    None => {},
                }
                proof {
                    let nd = done.push(cur);
                    assert(nd.drop_last() =~= done);
                    let x = cs@.subrange(0, i + 2);
                    assert(x.subrange(0, x.len() - 2) =~= cs@.subrange(0, i as int));
                    assert(cs@.subrange(i + 2, i + 2) =~= Seq::<char>::empty());
                    done = nd;
                    assert(crlf_lines(x) =~~= done.push(cs@.subrange(i + 2, i + 2)));
                }
                start = i + 2;
                i = i + 2;
            } else {
                proof {
                    let x = cs@.subrange(0, i + 1);
                    assert(x.drop_last() =~= cs@.subrange(0, i as int));
                    assert(cs@.subrange(start as int, i + 1) =~= cur.push(cs@[i as int]));
                    assert(crlf_lines(x) =~~= done.push(cs@.subrange(start as int, i + 1)));
                }
                i = i + 1;
            }
        }
        let last = copy_range(&cs, start, n);
        let parsed = parse_chars(&last);
        let ghost before = lines@;
        match parsed {
            Some(l) => {
                lines.push(l);
                assert(line_views(lines@) =~= line_views(before) + seq![l@]);
            },
            None => {},
        }
        proof {
            let all = done.push(cs@.subrange(start as int, n as int));
            assert(all.drop_last() =~= done);
            assert(cs@.subrange(0, n as int) =~= cs@);
        }
        CeResult { lines }
    }
}

} // verus!
