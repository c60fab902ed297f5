//! The directive grammar:
//!
//! ```text
//! line       := ("include" | "exclude") WS+ path-list
//! path-list  := path (WS* "," WS* path)*
//! ```
//!
//! A path list runs to the end of the line; each path is one comma-separated
//! piece of it with its surrounding whitespace taken off, and may not be empty.
use crate::text::{
    chars_of, gap_end, gap_len, line_end, line_len, string_of, trim, trim_range,
};
use vstd::prelude::*;

verus! {

/// Why a line is not a directive.
#[derive(Debug, Clone, Copy, PartialEq, Eq, Structural)]
pub enum ParseError {
    /// The line starts with neither keyword.
    UnrecognizedKeyword,
    /// A keyword is not followed by whitespace.
    MissingSeparatorWhitespace,
    /// The first path of the list is empty.
    EmptyPathList,
    /// A comma is followed by an empty path.
    TrailingDelimiter,
}

/// One parsed directive with its paths, in the order they were written.
#[derive(Debug, PartialEq)]
pub enum ConfigLine {
    Include(Vec<String>),
    Exclude(Vec<String>),
}

/// The mathematical value of a [`ConfigLine`].
pub enum DirectiveView {
    Include(Seq<Seq<char>>),
    Exclude(Seq<Seq<char>>),
}

/// The character sequences of a sequence of strings.
pub open spec fn texts(v: Seq<String>) -> Seq<Seq<char>> {
    v.map_values(|s: String| s@)
}

impl View for ConfigLine {
    type V = DirectiveView;

    open spec fn view(&self) -> DirectiveView {
        match self {
            ConfigLine::Include(v) => DirectiveView::Include(texts(v@)),
            ConfigLine::Exclude(v) => DirectiveView::Exclude(texts(v@)),
        }
    }
}

/// The pieces of `s` between commas; a text without commas is one piece.
pub open spec fn split_commas(s: Seq<char>) -> Seq<Seq<char>>
    decreases s.len(),
{
    if s.len() == 0 {
        seq![Seq::empty()]
    } else {
        let init = split_commas(s.drop_last());
        if s.last() == ',' {
            init.push(Seq::empty())
        } else {
            init.update(init.len() - 1, init.last().push(s.last()))
        }
    }
}

/// The paths that a line holds: its comma-separated pieces, trimmed.
pub open spec fn paths_of(line: Seq<char>) -> Seq<Seq<char>> {
    split_commas(line).map_values(|t: Seq<char>| trim(t))
}

/// What parsing a path list from `s` gives: the text from the end of the
/// first line on, and the paths of that line.
pub open spec fn path_list_spec(s: Seq<char>) -> Result<(Seq<char>, Seq<Seq<char>>), ParseError> {
    let n = line_len(s) as int;
    let ps = paths_of(s.subrange(0, n));
    if ps[0].len() == 0 {
        Err(ParseError::EmptyPathList)
    } else if exists|i: int| 1 <= i < ps.len() && #[trigger] ps[i].len() == 0 {
        Err(ParseError::TrailingDelimiter)
    } else {
        Ok((s.subrange(n, s.len() as int), ps))
    }
}

pub open spec fn starts_with(s: Seq<char>, word: Seq<char>) -> bool {
    word.len() <= s.len() && s.subrange(0, word.len() as int) == word
}

/// What parsing `word`, whitespace and a path list from `s` gives.
pub open spec fn keyword_spec(s: Seq<char>, word: Seq<char>) -> Result<
    (Seq<char>, Seq<Seq<char>>),
    ParseError,
> {
    if !starts_with(s, word) {
        Err(ParseError::UnrecognizedKeyword)
    } else {
        let after = s.subrange(word.len() as int, s.len() as int);
        let g = gap_len(after) as int;
        if g == 0 {
            Err(ParseError::MissingSeparatorWhitespace)
        } else {
            path_list_spec(after.subrange(g, after.len() as int))
        }
    }
}

pub open spec fn include_word() -> Seq<char> {
    seq!['i', 'n', 'c', 'l', 'u', 'd', 'e']
}

pub open spec fn exclude_word() -> Seq<char> {
    seq!['e', 'x', 'c', 'l', 'u', 'd', 'e']
}

pub open spec fn include_line_spec(s: Seq<char>) -> Result<(Seq<char>, DirectiveView), ParseError> {
    match keyword_spec(s, include_word()) {
        Ok((rest, ps)) => Ok((rest, DirectiveView::Include(ps))),
        Err(e) => Err(e),
    }
}

pub open spec fn exclude_line_spec(s: Seq<char>) -> Result<(Seq<char>, DirectiveView), ParseError> {
    match keyword_spec(s, exclude_word()) {
        Ok((rest, ps)) => Ok((rest, DirectiveView::Exclude(ps))),
        Err(e) => Err(e),
    }
}

/// What parsing a directive from `s` gives: an `include` line, else an
/// `exclude` line.
pub open spec fn config_line_spec(s: Seq<char>) -> Result<(Seq<char>, DirectiveView), ParseError> {
    match include_line_spec(s) {
        Err(ParseError::UnrecognizedKeyword) => exclude_line_spec(s),
        r => r,
    }
}

pub open spec fn list_result_view(r: Result<(String, Vec<String>), ParseError>) -> Result<
    (Seq<char>, Seq<Seq<char>>),
    ParseError,
> {
    match r {
        Ok((rest, ps)) => Ok((rest@, texts(ps@))),
        Err(e) => Err(e),
    }
}

pub open spec fn line_result_view(r: Result<(String, ConfigLine), ParseError>) -> Result<
    (Seq<char>, DirectiveView),
    ParseError,
> {
    match r {
        Ok((rest, d)) => Ok((rest@, d@)),
        Err(e) => Err(e),
    }
}

/// The same as `list_result_view`, for a result whose remainder is the part
/// of `cs` from an index on.
pub open spec fn list_at_view(cs: Seq<char>, r: Result<(usize, Vec<String>), ParseError>) -> Result<
    (Seq<char>, Seq<Seq<char>>),
    ParseError,
> {
    match r {
        Ok((e, ps)) => Ok((cs.subrange(e as int, cs.len() as int), texts(ps@))),
        Err(e) => Err(e),
    }
}

pub proof fn lemma_split_commas_len(s: Seq<char>)
    ensures
        split_commas(s).len() >= 1,
    decreases s.len(),
{
    if s.len() > 0 {
        lemma_split_commas_len(s.drop_last());
    }
}

/// Parses a path list from `cs[lo..]`.
fn path_list_at(cs: &Vec<char>, lo: usize) -> (r: Result<(usize, Vec<String>), ParseError>)
    requires
        lo <= cs.len(),
    ensures
        r matches Ok((e, _)) ==> lo <= e <= cs.len(),
        list_at_view(cs@, r) == path_list_spec(cs@.subrange(lo as int, cs.len() as int)),
{
    let ghost s = cs@.subrange(lo as int, cs.len() as int);
    let end = line_end(cs, lo);
    let ghost line = cs@.subrange(lo as int, end as int);
    assert(s.subrange(0, end - lo) == line);
    let mut paths: Vec<String> = Vec::new();
    let mut tok: usize = lo;
    let mut i: usize = lo;
    while i < end
        invariant
            lo <= tok <= i <= end <= cs.len(),
            split_commas(cs@.subrange(lo as int, i as int)).len() == paths.len() + 1,
            split_commas(cs@.subrange(lo as int, i as int)).last() == cs@.subrange(
                tok as int,
                i as int,
            ),
            forall|j: int|
                0 <= j < paths.len() ==> (#[trigger] paths@[j])@ == trim(
                    split_commas(cs@.subrange(lo as int, i as int))[j],
                ),
        decreases end - i,
    {
        let ghost pre = cs@.subrange(lo as int, i as int);
        let ghost next = cs@.subrange(lo as int, i + 1);
        assert(next.drop_last() == pre);
        assert(next.last() == cs@[i as int]);
        proof {
            lemma_split_commas_len(pre);
        }
        if cs[i] == ',' {
            let (a, b) = trim_range(cs, tok, i);
            let p = string_of(cs, a, b);
            paths.push(p);
            tok = i + 1;
            assert(cs@.subrange(tok as int, i + 1) =~= Seq::<char>::empty());
        } else {
            assert(cs@.subrange(tok as int, i + 1) == cs@.subrange(tok as int, i as int).push(
                cs@[i as int],
            ));
        }
        i += 1;
    }
    let (a, b) = trim_range(cs, tok, end);
    let p = string_of(cs, a, b);
    paths.push(p);
    let ghost ps = paths_of(line);
    assert(texts(paths@) =~= ps);
    if paths[0].as_str().is_empty() {
        return Err(ParseError::EmptyPathList);
    }
    let mut j: usize = 1;
    while j < paths.len()
        invariant
            1 <= j <= paths.len(),
            texts(paths@) == ps,
            ps[0].len() != 0,
            s == cs@.subrange(lo as int, cs.len() as int),
            lo <= end <= cs.len(),
            line_len(s) == end - lo,
            s.subrange(0, end - lo) == line,
            ps == paths_of(line),
            forall|k: int| 1 <= k < j ==> (#[trigger] ps[k]).len() != 0,
        decreases paths.len() - j,
    {
        if paths[j].as_str().is_empty() {
            assert(1 <= j < ps.len() && ps[j as int].len() == 0);
            return Err(ParseError::TrailingDelimiter);
        }
        j += 1;
    }
    assert(s.subrange(end - lo, s.len() as int) == cs@.subrange(end as int, cs.len() as int));
    Ok((end, paths))
}

/// Parses a comma-separated path list. The list ends at the first line feed,
/// which is left in the remainder.
pub fn path_list(input: &str) -> (r: Result<(String, Vec<String>), ParseError>)
    ensures
        list_result_view(r) == path_list_spec(input@),
{
    let cs = chars_of(input);
    assert(cs@.subrange(0, cs@.len() as int) == cs@);
    match path_list_at(&cs, 0) {
        Ok((e, ps)) => Ok((string_of(&cs, e, cs.len()), ps)),
        Err(x) => Err(x),
    }
}


/// Parses `word`, at least one whitespace character and a path list from
/// `cs`.
fn keyword_at(cs: &Vec<char>, word: &Vec<char>) -> (r: Result<(usize, Vec<String>), ParseError>)
    ensures
        r matches Ok((e, _)) ==> e <= cs.len(),
        list_at_view(cs@, r) == keyword_spec(cs@, word@),
{
    if word.len() > cs.len() {
        return Err(ParseError::UnrecognizedKeyword);
    }
    let mut i: usize = 0;
    while i < word.len()
        invariant
            i <= word.len() <= cs.len(),
            forall|j: int| 0 <= j < i ==> cs@[j] == word@[j],
        decreases word.len() - i,
    {
        if cs[i] != word[i] {
            assert(cs@.subrange(0, word.len() as int)[i as int] != word@[i as int]);
            return Err(ParseError::UnrecognizedKeyword);
        }
        i += 1;
    }
    assert(cs@.subrange(0, word.len() as int) =~= word@);
    let k = word.len();
    let ghost after = cs@.subrange(k as int, cs.len() as int);
    let g = gap_end(cs, k);
    if g == k {
        return Err(ParseError::MissingSeparatorWhitespace);
    }
    assert(after.subrange(g - k, after.len() as int) == cs@.subrange(g as int, cs.len() as int));
    path_list_at(cs, g)
}

/// The word `include`, as characters.
fn include_chars() -> (r: Vec<char>)
    ensures
        r@ == include_word(),
{
    let r = vec!['i', 'n', 'c', 'l', 'u', 'd', 'e'];
    assert(r@ =~= include_word());
    r
}

/// The word `exclude`, as characters.
fn exclude_chars() -> (r: Vec<char>)
    ensures
        r@ == exclude_word(),
{
    let r = vec!['e', 'x', 'c', 'l', 'u', 'd', 'e'];
    assert(r@ =~= exclude_word());
    r
}

/// Parses an `include` directive.
pub fn include_line(input: &str) -> (r: Result<(String, ConfigLine), ParseError>)
    ensures
        line_result_view(r) == include_line_spec(input@),
{
    let cs = chars_of(input);
    match keyword_at(&cs, &include_chars()) {
        Ok((e, ps)) => Ok((string_of(&cs, e, cs.len()), ConfigLine::Include(ps))),
        Err(x) => Err(x),
    }
}

/// Parses an `exclude` directive.
pub fn exclude_line(input: &str) -> (r: Result<(String, ConfigLine), ParseError>)
    ensures
        line_result_view(r) == exclude_line_spec(input@),
{
    let cs = chars_of(input);
    match keyword_at(&cs, &exclude_chars()) {
        Ok((e, ps)) => Ok((string_of(&cs, e, cs.len()), ConfigLine::Exclude(ps))),
        Err(x) => Err(x),
    }
}

/// Parses one directive: an `include` line, else an `exclude` line. The
/// remainder is the input from the first line feed on.
pub fn parse_config_line(input: &str) -> (r: Result<(String, ConfigLine), ParseError>)
    ensures
        line_result_view(r) == config_line_spec(input@),
{
    match include_line(input) {
        Err(ParseError::UnrecognizedKeyword) => exclude_line(input),
        r => r,
    }
}

} // verus!
