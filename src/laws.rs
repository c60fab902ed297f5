//! Properties that relate the parsers' results across inputs.
use crate::grammar::{
    config_line_spec, exclude_word, include_word, keyword_spec, path_list_spec, paths_of,
    lemma_split_commas_len, split_commas, starts_with, DirectiveView, ParseError,
};
use crate::text::{
    gap_len, is_space, is_white_space, lemma_gap_len, lemma_trim_padded, lemma_gap_len_facts, lemma_line_len, lemma_line_len_facts,
    line_len, trim,
};
use vstd::prelude::*;

verus! {

/// A path list ends where its line ends: the remainder is empty or starts
/// with a line feed, and the text before it alone gives the same paths.
pub proof fn lemma_path_list_stops_at_line_end(s: Seq<char>)
    requires
        path_list_spec(s) is Ok,
    ensures
        ({
            let (rest, ps) = path_list_spec(s)->Ok_0;
            let pre = s.subrange(0, s.len() - rest.len());
            &&& rest.len() < s.len()
            &&& s == pre + rest
            &&& rest.len() == 0 || rest[0] == '\n'
            &&& path_list_spec(pre) == Ok::<(Seq<char>, Seq<Seq<char>>), ParseError>(
                (Seq::empty(), ps),
            )
        }),
{
    let n = line_len(s) as int;
    lemma_line_len_facts(s);
    let pre = s.subrange(0, n);
    let rest = s.subrange(n, s.len() as int);
    assert(s == pre + rest);
    assert(split_commas(Seq::<char>::empty()) == seq![Seq::<char>::empty()]);
    assert(n > 0) by {
        if n == 0 {
            assert(s.subrange(0, 0) =~= Seq::<char>::empty());
            assert(paths_of(Seq::<char>::empty())[0] == trim(Seq::<char>::empty()));
        }
    }
    assert forall|j: int| 0 <= j < n implies #[trigger] pre[j] != '\n' by {
        assert(pre[j] == s[j]);
    }
    lemma_line_len(pre, n);
    assert(pre.subrange(0, n) == pre);
    assert(pre.subrange(n, n) =~= Seq::<char>::empty());
}

/// A keyword line ends where its path list's line ends: the remainder is
/// empty or starts with a line feed, and the text before it alone gives the
/// same paths.
pub proof fn lemma_keyword_stops_at_line_end(s: Seq<char>, word: Seq<char>)
    requires
        keyword_spec(s, word) is Ok,
    ensures
        ({
            let (rest, ps) = keyword_spec(s, word)->Ok_0;
            let pre = s.subrange(0, s.len() - rest.len());
            &&& rest.len() + word.len() < s.len()
            &&& s == pre + rest
            &&& rest.len() == 0 || rest[0] == '\n'
            &&& keyword_spec(pre, word) == Ok::<(Seq<char>, Seq<Seq<char>>), ParseError>(
                (Seq::empty(), ps),
            )
        }),
{
    let k = word.len() as int;
    let after = s.subrange(k, s.len() as int);
    let g = gap_len(after) as int;
    lemma_gap_len_facts(after);
    let list = after.subrange(g, after.len() as int);
    lemma_path_list_stops_at_line_end(list);
    let (rest, ps) = path_list_spec(list)->Ok_0;
    let m = s.len() - rest.len();
    let pre = s.subrange(0, m);
    assert(list =~= s.subrange(k + g, s.len() as int));
    assert(rest =~= list.subrange(list.len() - rest.len(), list.len() as int));
    assert(rest =~= s.subrange(m, s.len() as int));
    assert(s =~= pre + rest);
    assert(pre.subrange(0, k) == s.subrange(0, k));
    let after_pre = pre.subrange(k, m);
    assert forall|j: int| 0 <= j < g implies is_space(#[trigger] after_pre[j]) by {
        assert(after_pre[j] == after[j]);
    }
    assert(after_pre[g] == after[g]);
    lemma_gap_len(after_pre, g);
    assert(after_pre.subrange(g, after_pre.len() as int) == list.subrange(
        0,
        list.len() - rest.len(),
    ));
}

/// After a directive is parsed, the remainder is empty or starts with a line
/// feed, and the text before it alone parses to the same directive with
/// nothing left: no part of the directive is read twice.
pub proof fn lemma_remainder_is_disjoint(input: Seq<char>)
    requires
        config_line_spec(input) is Ok,
    ensures
        ({
            let (rest, d) = config_line_spec(input)->Ok_0;
            let pre = input.subrange(0, input.len() - rest.len());
            &&& rest.len() < input.len()
            &&& input == pre + rest
            &&& rest.len() == 0 || rest[0] == '\n'
            &&& config_line_spec(pre) == Ok::<(Seq<char>, DirectiveView), ParseError>(
                (Seq::empty(), d),
            )
        }),
{
    if keyword_spec(input, include_word()) is Ok {
        lemma_keyword_stops_at_line_end(input, include_word());
    } else {
        lemma_keyword_stops_at_line_end(input, exclude_word());
        let rest = keyword_spec(input, exclude_word())->Ok_0.0;
        let pre = input.subrange(0, input.len() - rest.len());
        assert(starts_with(input, exclude_word()));
        assert(input[0] == 'e');
        assert(pre[0] == 'e');
        assert(!starts_with(pre, include_word())) by {
            if starts_with(pre, include_word()) {
                assert(pre.subrange(0, 7)[0] == 'i');
            }
        }
    }
}


/// The pieces `qs` written with a comma between each two.
pub open spec fn join_commas(qs: Seq<Seq<char>>) -> Seq<char>
    decreases qs.len(),
{
    if qs.len() == 0 {
        Seq::empty()
    } else if qs.len() == 1 {
        qs[0]
    } else {
        join_commas(qs.drop_last()) + seq![','] + qs.last()
    }
}

proof fn lemma_split_append(y: Seq<char>, x: Seq<char>)
    requires
        forall|j: int| 0 <= j < x.len() ==> #[trigger] x[j] != ',',
    ensures
        split_commas(y + x) == split_commas(y).update(
            split_commas(y).len() - 1,
            split_commas(y).last() + x,
        ),
    decreases x.len(),
{
    lemma_split_commas_len(y);
    let sy = split_commas(y);
    if x.len() == 0 {
        assert(y + x == y);
        assert(sy.last() + x == sy.last());
        assert(sy.update(sy.len() - 1, sy.last()) =~= sy);
    } else {
        let x0 = x.drop_last();
        lemma_split_append(y, x0);
        assert((y + x).drop_last() == y + x0);
        assert((y + x).last() == x.last());
        assert(x.last() != ',');
        assert(sy.last() + x0 + seq![x.last()] == sy.last() + x);
        let s0 = split_commas(y + x0);
        assert(s0.len() == sy.len());
        assert(s0.last() == sy.last() + x0);
        assert(split_commas(y + x) == s0.update(s0.len() - 1, s0.last().push(x.last())));
        assert((sy.last() + x0).push(x.last()) =~= sy.last() + x);
        assert(split_commas(y + x) =~= sy.update(sy.len() - 1, sy.last() + x));
    }
}

proof fn lemma_split_join(qs: Seq<Seq<char>>)
    requires
        qs.len() >= 1,
        forall|i: int, j: int| 0 <= i < qs.len() && 0 <= j < qs[i].len() ==> #[trigger] qs[i][j] != ',',
    ensures
        split_commas(join_commas(qs)) == qs,
    decreases qs.len(),
{
    let last = qs.last();
    assert forall|j: int| 0 <= j < last.len() implies #[trigger] last[j] != ',' by {
        assert(last[j] == qs[qs.len() - 1][j]);
    }
    if qs.len() == 1 {
        lemma_split_append(Seq::empty(), last);
        assert(Seq::<char>::empty() + last == last);
        assert(split_commas(Seq::<char>::empty()) == seq![Seq::<char>::empty()]);
        assert(split_commas(join_commas(qs)) =~= qs);
    } else {
        let init = qs.drop_last();
        assert forall|i: int, j: int| 0 <= i < init.len() && 0 <= j < init[i].len() implies #[trigger] init[i][j] != ',' by {
            assert(init[i] == qs[i]);
        }
        lemma_split_join(init);
        let jc = join_commas(init) + seq![','];
        assert(jc.drop_last() == join_commas(init));
        lemma_split_append(jc, last);
        assert(Seq::<char>::empty() + last == last);
        assert(split_commas(join_commas(qs)) =~= qs);
    }
}

proof fn lemma_join_line(qs: Seq<Seq<char>>)
    requires
        forall|i: int, j: int| 0 <= i < qs.len() && 0 <= j < qs[i].len() ==> #[trigger] qs[i][j] != '\n',
    ensures
        forall|j: int| 0 <= j < join_commas(qs).len() ==> #[trigger] join_commas(qs)[j] != '\n',
    decreases qs.len(),
{
    if qs.len() == 1 {
        assert forall|j: int| 0 <= j < join_commas(qs).len() implies #[trigger] join_commas(qs)[j] != '\n' by {
            assert(join_commas(qs)[j] == qs[0][j]);
        }
    } else if qs.len() > 1 {
        let init = qs.drop_last();
        assert forall|i: int, j: int| 0 <= i < init.len() && 0 <= j < init[i].len() implies #[trigger] init[i][j] != '\n' by {
            assert(init[i] == qs[i]);
        }
        lemma_join_line(init);
        let a = join_commas(init);
        let last = qs.last();
        assert forall|j: int| 0 <= j < join_commas(qs).len() implies #[trigger] join_commas(qs)[j] != '\n' by {
            if j < a.len() {
                assert(join_commas(qs)[j] == a[j]);
            } else if j > a.len() {
                assert(join_commas(qs)[j] == last[j - a.len() - 1]);
                assert(last[j - a.len() - 1] == qs[qs.len() - 1][j - a.len() - 1]);
            }
        }
    }
}

/// Paths written with a comma between each two, with whitespace other than
/// line feeds on either side of each, parse back to the same paths in order,
/// each with its surrounding whitespace taken off.
pub proof fn lemma_joined_paths(
    paths: Seq<Seq<char>>,
    before: Seq<Seq<char>>,
    after: Seq<Seq<char>>,
)
    requires
        paths.len() >= 1,
        before.len() == paths.len(),
        after.len() == paths.len(),
        forall|i: int, j: int|
            0 <= i < paths.len() && 0 <= j < paths[i].len() ==> #[trigger] paths[i][j] != ','
                && paths[i][j] != '\n',
        forall|i: int| 0 <= i < paths.len() ==> #[trigger] trim(paths[i]).len() > 0,
        forall|i: int, j: int|
            0 <= i < before.len() && 0 <= j < before[i].len() ==> is_white_space(
                #[trigger] before[i][j],
            ) && before[i][j] != '\n',
        forall|i: int, j: int|
            0 <= i < after.len() && 0 <= j < after[i].len() ==> is_white_space(
                #[trigger] after[i][j],
            ) && after[i][j] != '\n',
    ensures
        path_list_spec(
            join_commas(Seq::new(paths.len(), |i: int| before[i] + paths[i] + after[i])),
        ) == Ok::<(Seq<char>, Seq<Seq<char>>), ParseError>(
            (Seq::empty(), paths.map_values(|p: Seq<char>| trim(p))),
        ),
{
    let qs = Seq::new(paths.len(), |i: int| before[i] + paths[i] + after[i]);
    assert forall|i: int, j: int| 0 <= i < qs.len() && 0 <= j < qs[i].len() implies #[trigger] qs[i][j]
        != ',' && qs[i][j] != '\n' by {
        let b = before[i];
        let p = paths[i];
        if j < b.len() {
            assert(qs[i][j] == b[j]);
            assert(is_white_space(b[j]));
        } else if j < b.len() + p.len() {
            assert(qs[i][j] == p[j - b.len()]);
        } else {
            assert(qs[i][j] == after[i][j - b.len() - p.len()]);
            assert(is_white_space(after[i][j - b.len() - p.len()]));
        }
    }
    lemma_split_join(qs);
    lemma_join_line(qs);
    let s = join_commas(qs);
    lemma_line_len(s, s.len() as int);
    assert(s.subrange(0, s.len() as int) == s);
    assert(s.subrange(s.len() as int, s.len() as int) =~= Seq::<char>::empty());
    let ps = paths_of(s);
    assert forall|i: int| 0 <= i < paths.len() implies #[trigger] ps[i] == trim(paths[i]) by {
        assert forall|j: int| 0 <= j < before[i].len() implies is_white_space(
            #[trigger] before[i][j],
        ) by {}
        assert forall|j: int| 0 <= j < after[i].len() implies is_white_space(
            #[trigger] after[i][j],
        ) by {}
        lemma_trim_padded(before[i], paths[i], after[i]);
    }
    assert(ps =~= paths.map_values(|p: Seq<char>| trim(p)));
    assert(ps[0].len() > 0);
}

} // verus!
