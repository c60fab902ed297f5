//! Character-level building blocks: conversions between `str`/`String` and
//! `Vec<char>`, whitespace classes, trimming and line boundaries.
use vstd::prelude::*;
use vstd::std_specs::iter::IteratorSpec;

verus! {

broadcast use vstd::string::axiom_spec_iter;

/// The characters of `s`, in order.
pub fn chars_of(s: &str) -> (r: Vec<char>)
    ensures
        r@ == s@,
{
    let mut it = s.chars();
    let mut out: Vec<char> = Vec::new();
    loop
        invariant
            out@ + it.remaining() == s@,
            it.obeys_prophetic_iter_laws(),
            it.decrease() is Some,
        ensures
            out@ == s@,
        decreases it.decrease()->0,
    {
        let ghost before = it.remaining();
        match it.next() {
            Some(c) => {
                out.push(c);
                assert(out@ + it.remaining() == s@) by {
                    assert(before == seq![c] + it.remaining());
                }
            },
            None => {
                assert(out@ + it.remaining() == out@);
                break;
            },
        }
    }
    out
}


/// Relies on `String::push`: appends one character at the end.
#[verifier::external_body]
fn push_char(s: &mut String, c: char)
    ensures
        final(s)@ == old(s)@.push(c),
{
    s.push(c);
}

/// The string made of `cs[lo..hi]`.
pub fn string_of(cs: &Vec<char>, lo: usize, hi: usize) -> (r: String)
    requires
        lo <= hi <= cs.len(),
    ensures
        r@ == cs@.subrange(lo as int, hi as int),
{
    let mut out = String::new();
    let mut i: usize = lo;
    while i < hi
        invariant
            lo <= i <= hi <= cs.len(),
            out@ == cs@.subrange(lo as int, i as int),
        decreases hi - i,
    {
        push_char(&mut out, cs[i]);
        assert(cs@.subrange(lo as int, i + 1) == cs@.subrange(lo as int, i as int).push(cs@[i as int]));
        i += 1;
    }
    out
}

/// Unicode `White_Space`: the characters that `str::trim` removes.
pub open spec fn is_white_space(c: char) -> bool {
    let v = c as u32;
    (0x9 <= v <= 0xd) || v == 0x20 || v == 0x85 || v == 0xa0 || v == 0x1680 || (0x2000 <= v
        <= 0x200a) || v == 0x2028 || v == 0x2029 || v == 0x202f || v == 0x205f || v == 0x3000
}

/// Whether `c` is Unicode whitespace.
pub fn white_space(c: char) -> (r: bool)
    ensures
        r == is_white_space(c),
{
    let v = c as u32;
    (0x9 <= v && v <= 0xd) || v == 0x20 || v == 0x85 || v == 0xa0 || v == 0x1680 || (0x2000 <= v
        && v <= 0x200a) || v == 0x2028 || v == 0x2029 || v == 0x202f || v == 0x205f || v == 0x3000
}

/// Space, tab, carriage return or line feed: the whitespace that may follow
/// a keyword.
pub open spec fn is_space(c: char) -> bool {
    c == ' ' || c == '\t' || c == '\r' || c == '\n'
}

/// `s` without its leading whitespace.
pub open spec fn trim_start(s: Seq<char>) -> Seq<char>
    decreases s.len(),
{
    if s.len() > 0 && is_white_space(s[0]) {
        trim_start(s.drop_first())
    } else {
        s
    }
}

/// `s` without its trailing whitespace.
pub open spec fn trim_end(s: Seq<char>) -> Seq<char>
    decreases s.len(),
{
    if s.len() > 0 && is_white_space(s.last()) {
        trim_end(s.drop_last())
    } else {
        s
    }
}

/// `s` without leading and trailing whitespace.
pub open spec fn trim(s: Seq<char>) -> Seq<char> {
    trim_end(trim_start(s))
}

/// Length of the first line of `s`: the characters before the first line feed.
pub open spec fn line_len(s: Seq<char>) -> nat
    decreases s.len(),
{
    if s.len() == 0 || s[0] == '\n' {
        0
    } else {
        1 + line_len(s.drop_first())
    }
}

/// Length of the run of spaces, tabs and line breaks that `s` starts with.
pub open spec fn gap_len(s: Seq<char>) -> nat
    decreases s.len(),
{
    if s.len() > 0 && is_space(s[0]) {
        1 + gap_len(s.drop_first())
    } else {
        0
    }
}

proof fn lemma_trim_start(s: Seq<char>, k: int)
    requires
        0 <= k <= s.len(),
        forall|j: int| 0 <= j < k ==> is_white_space(#[trigger] s[j]),
        k == s.len() || !is_white_space(s[k]),
    ensures
        trim_start(s) == s.subrange(k, s.len() as int),
    decreases k,
{
    if k == 0 {
        assert(s.subrange(0, s.len() as int) == s);
    } else {
        assert(is_white_space(s[0]));
        let t = s.drop_first();
        assert forall|j: int| 0 <= j < k - 1 implies is_white_space(#[trigger] t[j]) by {
            assert(t[j] == s[j + 1]);
        }
        lemma_trim_start(t, k - 1);
        assert(t.subrange(k - 1, t.len() as int) == s.subrange(k, s.len() as int));
    }
}

proof fn lemma_trim_end(s: Seq<char>, k: int)
    requires
        0 <= k <= s.len(),
        forall|j: int| k <= j < s.len() ==> is_white_space(#[trigger] s[j]),
        k == 0 || !is_white_space(s[k - 1]),
    ensures
        trim_end(s) == s.subrange(0, k),
    decreases s.len() - k,
{
    if k == s.len() {
        assert(s.subrange(0, k) == s);
    } else {
        assert(is_white_space(s.last()));
        let t = s.drop_last();
        assert forall|j: int| k <= j < t.len() implies is_white_space(#[trigger] t[j]) by {
            assert(t[j] == s[j]);
        }
        lemma_trim_end(t, k);
        assert(t.subrange(0, k) == s.subrange(0, k));
    }
}

/// Whitespace in front of `p` does not change `trim(p)`, nor does whitespace
/// behind it.
pub proof fn lemma_trim_padded(b: Seq<char>, p: Seq<char>, a: Seq<char>)
    requires
        forall|j: int| 0 <= j < b.len() ==> is_white_space(#[trigger] b[j]),
        forall|j: int| 0 <= j < a.len() ==> is_white_space(#[trigger] a[j]),
    ensures
        trim(b + p + a) == trim(p),
{
    lemma_trim_start_skips(b, p + a);
    assert(b + p + a == b + (p + a));
    if trim_start(p).len() > 0 {
        lemma_trim_start_append(p, a);
        lemma_trim_end_skips(trim_start(p), a);
    } else {
        lemma_trim_start_all(p);
        let pa = p + a;
        assert forall|j: int| 0 <= j < pa.len() implies is_white_space(#[trigger] pa[j]) by {
            if j < p.len() {
                assert(pa[j] == p[j]);
            } else {
                assert(pa[j] == a[j - p.len()]);
            }
        }
        lemma_trim_start_of_white(pa);
        assert(trim_start(pa) =~= trim_start(p));
    }
}

proof fn lemma_trim_start_skips(b: Seq<char>, p: Seq<char>)
    requires
        forall|j: int| 0 <= j < b.len() ==> is_white_space(#[trigger] b[j]),
    ensures
        trim_start(b + p) == trim_start(p),
    decreases b.len(),
{
    if b.len() > 0 {
        assert((b + p)[0] == b[0]);
        let t = b.drop_first();
        assert forall|j: int| 0 <= j < t.len() implies is_white_space(#[trigger] t[j]) by {
            assert(t[j] == b[j + 1]);
        }
        assert((b + p).drop_first() == t + p);
        lemma_trim_start_skips(t, p);
    } else {
        assert(b + p == p);
    }
}

proof fn lemma_trim_end_skips(p: Seq<char>, a: Seq<char>)
    requires
        forall|j: int| 0 <= j < a.len() ==> is_white_space(#[trigger] a[j]),
    ensures
        trim_end(p + a) == trim_end(p),
    decreases a.len(),
{
    if a.len() > 0 {
        assert((p + a).last() == a.last());
        let t = a.drop_last();
        assert forall|j: int| 0 <= j < t.len() implies is_white_space(#[trigger] t[j]) by {
            assert(t[j] == a[j]);
        }
        assert((p + a).drop_last() == p + t);
        lemma_trim_end_skips(p, t);
    } else {
        assert(p + a == p);
    }
}

proof fn lemma_trim_start_append(p: Seq<char>, a: Seq<char>)
    requires
        trim_start(p).len() > 0,
    ensures
        trim_start(p + a) == trim_start(p) + a,
    decreases p.len(),
{
    assert((p + a)[0] == p[0]);
    if is_white_space(p[0]) {
        assert((p + a).drop_first() == p.drop_first() + a);
        lemma_trim_start_append(p.drop_first(), a);
    }
}

proof fn lemma_trim_start_all(p: Seq<char>)
    requires
        trim_start(p).len() == 0,
    ensures
        forall|j: int| 0 <= j < p.len() ==> is_white_space(#[trigger] p[j]),
    decreases p.len(),
{
    if p.len() > 0 {
        let t = p.drop_first();
        lemma_trim_start_all(t);
        assert forall|j: int| 0 <= j < p.len() implies is_white_space(#[trigger] p[j]) by {
            if j > 0 {
                assert(p[j] == t[j - 1]);
            }
        }
    }
}

proof fn lemma_trim_start_of_white(a: Seq<char>)
    requires
        forall|j: int| 0 <= j < a.len() ==> is_white_space(#[trigger] a[j]),
    ensures
        trim_start(a).len() == 0,
{
    lemma_trim_start_skips(a, Seq::<char>::empty());
    assert(a + Seq::<char>::empty() == a);
}

/// The bounds of `cs[lo..hi]` with its surrounding whitespace taken off.
pub fn trim_range(cs: &Vec<char>, lo: usize, hi: usize) -> (r: (usize, usize))
    requires
        lo <= hi <= cs.len(),
    ensures
        lo <= r.0 <= r.1 <= hi,
        cs@.subrange(r.0 as int, r.1 as int) == trim(cs@.subrange(lo as int, hi as int)),
{
    let ghost s = cs@.subrange(lo as int, hi as int);
    let mut a: usize = lo;
    while a < hi && white_space(cs[a])
        invariant
            lo <= a <= hi <= cs.len(),
            forall|j: int| lo <= j < a ==> is_white_space(#[trigger] cs@[j]),
        decreases hi - a,
    {
        a += 1;
    }
    proof {
        assert forall|j: int| 0 <= j < a - lo implies is_white_space(#[trigger] s[j]) by {
            assert(s[j] == cs@[lo + j]);
        }
        lemma_trim_start(s, a - lo);
        assert(s.subrange(a - lo, s.len() as int) == cs@.subrange(a as int, hi as int));
    }
    let ghost u = cs@.subrange(a as int, hi as int);
    let mut b: usize = hi;
    while b > a && white_space(cs[b - 1])
        invariant
            lo <= a <= b <= hi <= cs.len(),
            forall|j: int| b <= j < hi ==> is_white_space(#[trigger] cs@[j]),
        decreases b - a,
    {
        b -= 1;
    }
    proof {
        assert forall|j: int| b - a <= j < u.len() implies is_white_space(#[trigger] u[j]) by {
            assert(u[j] == cs@[a + j]);
        }
        lemma_trim_end(u, b - a);
        assert(u.subrange(0, b - a) == cs@.subrange(a as int, b as int));
    }
    (a, b)
}

/// What `line_len` says of `s`: no line feed before it, and a line feed or
/// the end of `s` at it.
pub proof fn lemma_line_len_facts(s: Seq<char>)
    ensures
        line_len(s) <= s.len(),
        forall|j: int| 0 <= j < line_len(s) ==> #[trigger] s[j] != '\n',
        line_len(s) == s.len() || s[line_len(s) as int] == '\n',
    decreases s.len(),
{
    if s.len() > 0 && s[0] != '\n' {
        let t = s.drop_first();
        lemma_line_len_facts(t);
        assert forall|j: int| 0 <= j < line_len(s) implies #[trigger] s[j] != '\n' by {
            if j > 0 {
                assert(s[j] == t[j - 1]);
            }
        }
    }
}

/// What `gap_len` says of `s`: spaces before it, and no space or the end of
/// `s` at it.
pub proof fn lemma_gap_len_facts(s: Seq<char>)
    ensures
        gap_len(s) <= s.len(),
        forall|j: int| 0 <= j < gap_len(s) ==> is_space(#[trigger] s[j]),
        gap_len(s) == s.len() || !is_space(s[gap_len(s) as int]),
    decreases s.len(),
{
    if s.len() > 0 && is_space(s[0]) {
        let t = s.drop_first();
        lemma_gap_len_facts(t);
        assert forall|j: int| 0 <= j < gap_len(s) implies is_space(#[trigger] s[j]) by {
            if j > 0 {
                assert(s[j] == t[j - 1]);
            }
        }
    }
}

pub proof fn lemma_line_len(s: Seq<char>, k: int)
    requires
        0 <= k <= s.len(),
        forall|j: int| 0 <= j < k ==> #[trigger] s[j] != '\n',
        k == s.len() || s[k] == '\n',
    ensures
        line_len(s) == k,
    decreases k,
{
    if k > 0 {
        let t = s.drop_first();
        assert forall|j: int| 0 <= j < k - 1 implies #[trigger] t[j] != '\n' by {
            assert(t[j] == s[j + 1]);
        }
        assert(s[0] != '\n');
        lemma_line_len(t, k - 1);
    }
}

pub proof fn lemma_gap_len(s: Seq<char>, k: int)
    requires
        0 <= k <= s.len(),
        forall|j: int| 0 <= j < k ==> is_space(#[trigger] s[j]),
        k == s.len() || !is_space(s[k]),
    ensures
        gap_len(s) == k,
    decreases k,
{
    if k > 0 {
        let t = s.drop_first();
        assert forall|j: int| 0 <= j < k - 1 implies is_space(#[trigger] t[j]) by {
            assert(t[j] == s[j + 1]);
        }
        assert(is_space(s[0]));
        lemma_gap_len(t, k - 1);
    }
}

/// Index of the first line feed in `cs` at or after `lo`, or the length of
/// `cs` where there is none.
pub fn line_end(cs: &Vec<char>, lo: usize) -> (r: usize)
    requires
        lo <= cs.len(),
    ensures
        lo <= r <= cs.len(),
        r == lo + line_len(cs@.subrange(lo as int, cs.len() as int)),
{
    let mut i: usize = lo;
    while i < cs.len() && cs[i] != '\n'
        invariant
            lo <= i <= cs.len(),
            forall|j: int| lo <= j < i ==> #[trigger] cs@[j] != '\n',
        decreases cs.len() - i,
    {
        i += 1;
    }
    proof {
        let s = cs@.subrange(lo as int, cs.len() as int);
        assert forall|j: int| 0 <= j < i - lo implies #[trigger] s[j] != '\n' by {
            assert(s[j] == cs@[lo + j]);
        }
        lemma_line_len(s, i - lo);
    }
    i
}

/// Index just past the run of spaces, tabs and line breaks in `cs` that
/// starts at `lo`.
pub fn gap_end(cs: &Vec<char>, lo: usize) -> (r: usize)
    requires
        lo <= cs.len(),
    ensures
        lo <= r <= cs.len(),
        r == lo + gap_len(cs@.subrange(lo as int, cs.len() as int)),
{
    let mut i: usize = lo;
    while i < cs.len() && (cs[i] == ' ' || cs[i] == '\t' || cs[i] == '\r' || cs[i] == '\n')
        invariant
            lo <= i <= cs.len(),
            forall|j: int| lo <= j < i ==> is_space(#[trigger] cs@[j]),
        decreases cs.len() - i,
    {
        i += 1;
    }
    proof {
        let s = cs@.subrange(lo as int, cs.len() as int);
        assert forall|j: int| 0 <= j < i - lo implies is_space(#[trigger] s[j]) by {
            assert(s[j] == cs@[lo + j]);
        }
        lemma_gap_len(s, i - lo);
    }
    i
}

} // verus!
