//! Texts exchanged with the tools a scan runs: what `ffprobe` printed, the
//! system's `os-release` file, and the scaling filter given to `ffmpeg`.

use vstd::prelude::*;
use crate::text::{append_decimal, append_str, chars_start_with, chars_sub, decimal, string_from_chars, vec_from_str};
use crate::words::{lines, split_lines, trim_chars, trimmed};

verus! {

/// What `ffprobe` printed, trimmed; none where nothing is left.
pub open spec fn probe_text(out: Seq<char>) -> Option<Seq<char>> {
    if trimmed(out).len() == 0 {
        None
    } else {
        Some(trimmed(out))
    }
}

pub fn probe_output(out: &str) -> (r: Option<String>)
    ensures
        match r {
            Some(s) => probe_text(out@) == Some(s@),
            None => probe_text(out@) is None,
        },
{
    let v = vec_from_str(out);
    let t = trim_chars(v.as_slice());
    if t.len() == 0 {
        None
    } else {
        Some(string_from_chars(t.as_slice()))
    }
}

/// `s` without leading and trailing `"`.
pub open spec fn unquoted(s: Seq<char>) -> Seq<char>
    decreases s.len(),
{
    if s.len() > 0 && s[0] == '"' {
        unquoted(s.drop_first())
    } else if s.len() > 0 && s.last() == '"' {
        unquoted(s.drop_last())
    } else {
        s
    }
}

fn unquote(s: &[char]) -> (r: Vec<char>)
    ensures
        r@ == unquoted(s@),
{
    let n = s.len();
    let mut i: usize = 0;
    let mut k: usize = n;
    assert(s@.subrange(0, n as int) =~= s@);
    while i < k && (s[i] == '"' || s[k - 1] == '"')
        invariant
            i <= k <= n == s@.len(),
            unquoted(s@.subrange(i as int, k as int)) == unquoted(s@),
        decreases k - i,
    {
        let ghost cur = s@.subrange(i as int, k as int);
        if s[i] == '"' {
            assert(cur[0] == s@[i as int]);
            assert(cur.drop_first() =~= s@.subrange(i + 1, k as int));
            i = i + 1;
        } else {
            assert(cur[0] == s@[i as int]);
            assert(cur.last() == s@[k - 1]);
            assert(cur.drop_last() =~= s@.subrange(i as int, k - 1));
            k = k - 1;
        }
    }
    proof {
        let cur = s@.subrange(i as int, k as int);
        if i < k {
            assert(cur[0] == s@[i as int]);
            assert(cur.last() == s@[k - 1]);
        }
    }
    chars_sub(s, i, k)
}

/// The value of the first `PRETTY_NAME=` line of an `os-release` file,
/// without quotes; empty where there is none.
pub open spec fn pretty_name_in(ls: Seq<Seq<char>>) -> Seq<char>
    decreases ls.len(),
{
    if ls.len() == 0 {
        Seq::empty()
    } else {
        let l = ls[0];
        let p = "PRETTY_NAME="@;
        if p.len() <= l.len() && l.take(p.len() as int) == p {
            unquoted(l.skip(p.len() as int))
        } else {
            pretty_name_in(ls.drop_first())
        }
    }
}

/// The system's name as its `os-release` file gives it.
pub fn os_pretty_name(contents: &str) -> (s: String)
    ensures
        s@ == pretty_name_in(lines(contents@)),
{
    let v = vec_from_str(contents);
    let ls = split_lines(v.as_slice());
    let prefix = vec_from_str("PRETTY_NAME=");
    let ghost all = lines(contents@);
    assert(all.skip(0) =~= all);
    let mut i: usize = 0;
    while i < ls.len()
        invariant
            i <= ls@.len(),
            ls.deep_view() == all,
            all == lines(contents@),
            prefix@ == "PRETTY_NAME="@,
            pretty_name_in(all.skip(i as int)) == pretty_name_in(all),
        decreases ls@.len() - i,
    {
        let l = &ls[i];
        assert(l@ == all[i as int]);
        assert(all.skip(i as int)[0] == all[i as int]);
        if chars_start_with(l.as_slice(), prefix.as_slice()) {
            let rest = chars_sub(l.as_slice(), prefix.len(), l.len());
            assert(rest@ =~= l@.skip(prefix@.len() as int));
            let u = unquote(rest.as_slice());
            assert(pretty_name_in(all.skip(i as int)) == unquoted(l@.skip("PRETTY_NAME="@.len() as int)));
            return string_from_chars(u.as_slice());
        }
        assert(all.skip(i as int).drop_first() =~= all.skip(i + 1));
        i = i + 1;
    }
    assert(all.skip(ls@.len() as int) =~= Seq::<Seq<char>>::empty());
    String::new()
}

/// The `ffmpeg` filter that fits a snapshot within `max_dim` pixels, at
/// least 1, keeping its aspect, with even sides.
pub open spec fn scale_filter_text(max_dim: u32) -> Seq<char> {
    let d = decimal((if max_dim < 1 {
        1
    } else {
        max_dim
    }) as nat);
    "scale='min(iw,"@ + d + ")':'min(ih,"@ + d
        + ")':force_original_aspect_ratio=decrease,scale=trunc(iw/2)*2:trunc(ih/2)*2"@
}

pub fn scale_filter(max_dim: u32) -> (s: String)
    ensures
        s@ == scale_filter_text(max_dim),
{
    let d: u64 = if max_dim < 1 {
        1
    } else {
        max_dim as u64
    };
    let mut v: Vec<char> = Vec::new();
    append_str(&mut v, "scale='min(iw,");
    append_decimal(&mut v, d);
    append_str(&mut v, ")':'min(ih,");
    append_decimal(&mut v, d);
    append_str(&mut v, ")':force_original_aspect_ratio=decrease,scale=trunc(iw/2)*2:trunc(ih/2)*2");
    string_from_chars(v.as_slice())
}

} // verus!
