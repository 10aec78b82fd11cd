//! Splitting text into whitespace-separated words and into lines, and
//! substring replacement.

use vstd::prelude::*;
use crate::text::{chars_start_with, chars_sub};

verus! {

/// Unicode white space, as `char::is_whitespace` classifies it.
pub open spec fn is_ws(c: char) -> bool {
    ('\u{9}' <= c && c <= '\u{d}') || c == ' ' || c == '\u{85}' || c == '\u{a0}'
        || c == '\u{1680}' || ('\u{2000}' <= c && c <= '\u{200a}') || c == '\u{2028}'
        || c == '\u{2029}' || c == '\u{202f}' || c == '\u{205f}' || c == '\u{3000}'
}

pub fn char_is_ws(c: char) -> (r: bool)
    ensures
        r == is_ws(c),
{
    ('\u{9}' <= c && c <= '\u{d}') || c == ' ' || c == '\u{85}' || c == '\u{a0}'
        || c == '\u{1680}' || ('\u{2000}' <= c && c <= '\u{200a}') || c == '\u{2028}'
        || c == '\u{2029}' || c == '\u{202f}' || c == '\u{205f}' || c == '\u{3000}'
}

/// Finished words and the word being read, after reading `s` left to right.
pub open spec fn word_state(s: Seq<char>) -> (Seq<Seq<char>>, Seq<char>)
    decreases s.len(),
{
    if s.len() == 0 {
        (Seq::empty(), Seq::empty())
    } else {
        let (done, cur) = word_state(s.drop_last());
        if is_ws(s.last()) {
            (if cur.len() > 0 { done.push(cur) } else { done }, Seq::empty())
        } else {
            (done, cur.push(s.last()))
        }
    }
}

/// The maximal runs of non-white-space characters of `s`, in order.
pub open spec fn words(s: Seq<char>) -> Seq<Seq<char>> {
    let (done, cur) = word_state(s);
    if cur.len() > 0 {
        done.push(cur)
    } else {
        done
    }
}

/// The words of `s`.
pub fn split_words(s: &[char]) -> (r: Vec<Vec<char>>)
    ensures
        r.deep_view() == words(s@),
{
    let mut done: Vec<Vec<char>> = Vec::new();
    let mut cur: Vec<char> = Vec::new();
    let mut i: usize = 0;
    while i < s.len()
        invariant
            i <= s@.len(),
            (done.deep_view(), cur@) == word_state(s@.take(i as int)),
        decreases s@.len() - i,
    {
        let ghost prev_done = done.deep_view();
        let ghost prev_cur = cur@;
        assert(s@.take(i + 1).drop_last() =~= s@.take(i as int));
        assert(s@.take(i + 1).last() == s@[i as int]);
        if char_is_ws(s[i]) {
            if cur.len() > 0 {
                let c = cur;
                done.push(c);
                assert(done.deep_view() =~~= prev_done.push(prev_cur));
            }
            cur = Vec::new();
            assert(cur@ =~= Seq::<char>::empty());
        } else {
            cur.push(s[i]);
        }
        i = i + 1;
    }
    assert(s@.take(s@.len() as int) =~= s@);
    let ghost prev_done = done.deep_view();
    if cur.len() > 0 {
        let ghost c = cur@;
        done.push(cur);
        assert(done.deep_view() =~~= prev_done.push(c));
    }
    done
}

/// Finished lines and the line being read, split at `\n`.
pub open spec fn line_state(s: Seq<char>) -> (Seq<Seq<char>>, Seq<char>)
    decreases s.len(),
{
    if s.len() == 0 {
        (Seq::empty(), Seq::empty())
    } else {
        let (done, cur) = line_state(s.drop_last());
        if s.last() == '\n' {
            (done.push(cur), Seq::empty())
        } else {
            (done, cur.push(s.last()))
        }
    }
}

/// A line without one trailing carriage return.
pub open spec fn strip_cr(l: Seq<char>) -> Seq<char> {
    if l.len() > 0 && l.last() == '\r' {
        l.drop_last()
    } else {
        l
    }
}

/// The lines of `s` as `str::lines` yields them: split at `\n`, a final
/// empty piece dropped, one trailing `\r` removed from each line.
pub open spec fn lines(s: Seq<char>) -> Seq<Seq<char>> {
    let (done, cur) = line_state(s);
    let all = if cur.len() > 0 { done.push(cur) } else { done };
    Seq::new(all.len(), |i: int| strip_cr(all[i]))
}

fn strip_cr_exec(l: Vec<char>) -> (r: Vec<char>)
    ensures
        r@ == strip_cr(l@),
{
    let mut l = l;
    if l.len() > 0 && l[l.len() - 1] == '\r' {
        l.pop();
    }
    l
}

/// The lines of `s`.
pub fn split_lines(s: &[char]) -> (r: Vec<Vec<char>>)
    ensures
        r.deep_view() == lines(s@),
{
    let mut done: Vec<Vec<char>> = Vec::new();
    let mut cur: Vec<char> = Vec::new();
    let mut i: usize = 0;
    while i < s.len()
        invariant
            i <= s@.len(),
            (done.deep_view(), cur@) == line_state(s@.take(i as int)),
        decreases s@.len() - i,
    {
        let ghost prev_done = done.deep_view();
        let ghost prev_cur = cur@;
        assert(s@.take(i + 1).drop_last() =~= s@.take(i as int));
        assert(s@.take(i + 1).last() == s@[i as int]);
        if s[i] == '\n' {
            let c = cur;
            done.push(c);
            assert(done.deep_view() =~~= prev_done.push(prev_cur));
            cur = Vec::new();
            assert(cur@ =~= Seq::<char>::empty());
        } else {
            cur.push(s[i]);
        }
        i = i + 1;
    }
    assert(s@.take(s@.len() as int) =~= s@);
    let ghost prev_done = done.deep_view();
    if cur.len() > 0 {
        let ghost c = cur@;
        done.push(cur);
        assert(done.deep_view() =~~= prev_done.push(c));
    }
    let ghost all = done.deep_view();
    let mut out: Vec<Vec<char>> = Vec::new();
    let mut k: usize = 0;
    while k < done.len()
        invariant
            k <= done@.len(),
            all == done.deep_view(),
            out.deep_view() == Seq::new(k as nat, |j: int| strip_cr(all[j])),
        decreases done@.len() - k,
    {
        let ghost prev = out.deep_view();
        let line = crate::text::chars_sub(done[k].as_slice(), 0, done[k].len());
        assert(line@ =~= done@[k as int]@);
        assert(all[k as int] == done@[k as int]@);
        let stripped = strip_cr_exec(line);
        let ghost sv = stripped@;
        out.push(stripped);
        assert(out.deep_view() =~~= prev.push(sv));
        assert(out.deep_view() =~~= Seq::new((k + 1) as nat, |j: int| strip_cr(all[j])));
        k = k + 1;
    }
    out
}

/// `s` with every non-overlapping occurrence of `pat`, taken from the left,
/// replaced by `rep`.
pub open spec fn replace_all(s: Seq<char>, pat: Seq<char>, rep: Seq<char>) -> Seq<char>
    recommends
        pat.len() > 0,
    decreases s.len(),
{
    if s.len() == 0 || pat.len() == 0 {
        s
    } else if pat.len() <= s.len() && s.take(pat.len() as int) == pat {
        rep + replace_all(s.skip(pat.len() as int), pat, rep)
    } else {
        seq![s[0]] + replace_all(s.skip(1), pat, rep)
    }
}

/// `s` with every occurrence of `pat` replaced by `rep`.
pub fn replace_chars(s: &[char], pat: &[char], rep: &[char]) -> (r: Vec<char>)
    requires
        pat@.len() > 0,
    ensures
        r@ == replace_all(s@, pat@, rep@),
{
    let mut out: Vec<char> = Vec::new();
    let mut i: usize = 0;
    assert(s@.skip(0) =~= s@);
    assert(out@ + replace_all(s@, pat@, rep@) =~= replace_all(s@, pat@, rep@));
    while i < s.len()
        invariant
            i <= s@.len(),
            pat@.len() > 0,
            replace_all(s@, pat@, rep@) == out@ + replace_all(s@.skip(i as int), pat@, rep@),
        decreases s@.len() - i,
    {
        let rest = chars_sub(s, i, s.len());
        assert(rest@ =~= s@.skip(i as int));
        if chars_start_with(rest.as_slice(), pat) {
            let ghost before = out@;
            out = crate::text::chars_concat(out.as_slice(), rep);
            assert(s@.skip(i as int).skip(pat@.len() as int) =~= s@.skip(i + pat@.len()));
            assert(out@ + replace_all(s@.skip(i + pat@.len()), pat@, rep@)
                =~= before + (rep@ + replace_all(s@.skip(i + pat@.len()), pat@, rep@)));
            i = i + pat.len();
        } else {
            let ghost before = out@;
            out.push(s[i]);
            assert(s@.skip(i as int).skip(1) =~= s@.skip(i + 1));
            assert(out@ + replace_all(s@.skip(i + 1), pat@, rep@)
                =~= before + (seq![s@[i as int]] + replace_all(s@.skip(i + 1), pat@, rep@)));
            i = i + 1;
        }
    }
    assert(s@.skip(s@.len() as int) =~= Seq::<char>::empty());
    assert(out@ + Seq::<char>::empty() =~= out@);
    out
}

/// Index of the first occurrence of `pat` in `s` at or after `k`, if any.
pub open spec fn first_match(s: Seq<char>, pat: Seq<char>, k: int) -> Option<int>
    decreases s.len() - k,
{
    if k < 0 || k >= s.len() || k + pat.len() > s.len() {
        None
    } else if s.subrange(k, k + pat.len()) == pat {
        Some(k)
    } else {
        first_match(s, pat, k + 1)
    }
}

/// The index of the first occurrence of `pat` in `s`.
pub fn find_first(s: &[char], pat: &[char]) -> (r: Option<usize>)
    ensures
        match r {
            Some(k) => first_match(s@, pat@, 0) == Some(k as int),
            None => first_match(s@, pat@, 0) is None,
        },
{
    if pat.len() > s.len() {
        return None;
    }
    let mut k: usize = 0;
    while k < s.len() && pat.len() <= s.len() - k
        invariant
            pat@.len() <= s@.len(),
            k <= s@.len(),
            first_match(s@, pat@, 0) == first_match(s@, pat@, k as int),
        decreases s@.len() - k,
    {
        let rest = chars_sub(s, k, s.len());
        if chars_start_with(rest.as_slice(), pat) {
            assert(rest@.take(pat@.len() as int) =~= s@.subrange(k as int, k + pat@.len()));
            return Some(k);
        }
        assert(rest@.take(pat@.len() as int) =~= s@.subrange(k as int, k + pat@.len()));
        k = k + 1;
    }
    None
}


/// `s` without its leading white space.
pub open spec fn trim_front(s: Seq<char>) -> Seq<char>
    decreases s.len(),
{
    if s.len() > 0 && is_ws(s[0]) {
        trim_front(s.drop_first())
    } else {
        s
    }
}

/// `s` without its trailing white space.
pub open spec fn trim_back(s: Seq<char>) -> Seq<char>
    decreases s.len(),
{
    if s.len() > 0 && is_ws(s.last()) {
        trim_back(s.drop_last())
    } else {
        s
    }
}

/// `s` without leading and trailing white space, as `str::trim` gives it.
pub open spec fn trimmed(s: Seq<char>) -> Seq<char> {
    trim_back(trim_front(s))
}

proof fn lemma_trim_front_at(s: Seq<char>, i: int)
    requires
        0 <= i <= s.len(),
        forall|j: int| 0 <= j < i ==> is_ws(#[trigger] s[j]),
        i == s.len() || !is_ws(s[i]),
    ensures
        trim_front(s) == s.skip(i),
    decreases i,
{
    if i > 0 {
        assert(s.drop_first().skip(i - 1) =~= s.skip(i));
        lemma_trim_front_at(s.drop_first(), i - 1);
    } else {
        assert(s.skip(0) =~= s);
    }
}

proof fn lemma_trim_back_at(s: Seq<char>, k: int)
    requires
        0 <= k <= s.len(),
        forall|j: int| k <= j < s.len() ==> is_ws(#[trigger] s[j]),
        k == 0 || !is_ws(s[k - 1]),
    ensures
        trim_back(s) == s.take(k),
    decreases s.len() - k,
{
    if k < s.len() {
        assert(s.drop_last().take(k) =~= s.take(k));
        lemma_trim_back_at(s.drop_last(), k);
    } else {
        assert(s.take(k) =~= s);
    }
}

/// `s` without leading and trailing white space.
pub fn trim_chars(s: &[char]) -> (r: Vec<char>)
    ensures
        r@ == trimmed(s@),
{
    let n = s.len();
    let mut i: usize = 0;
    while i < n && char_is_ws(s[i])
        invariant
            i <= n == s@.len(),
            forall|j: int| 0 <= j < i ==> is_ws(#[trigger] s@[j]),
        decreases n - i,
    {
        i = i + 1;
    }
    proof {
        lemma_trim_front_at(s@, i as int);
    }
    let mut k: usize = n;
    while k > i && char_is_ws(s[k - 1])
        invariant
            i <= k <= n == s@.len(),
            forall|j: int| k <= j < n ==> is_ws(#[trigger] s@[j]),
        decreases k,
    {
        k = k - 1;
    }
    let ghost f = s@.skip(i as int);
    proof {
        assert forall|j: int| k - i <= j < f.len() implies is_ws(#[trigger] f[j]) by {
            assert(f[j] == s@[j + i]);
        }
        if k > i {
            assert(f[k - i - 1] == s@[k - 1]);
        }
        lemma_trim_back_at(f, k - i);
        assert(f.take(k - i) =~= s@.subrange(i as int, k as int));
    }
    chars_sub(s, i, k)
}

} // verus!
