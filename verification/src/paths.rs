//! A model of Unix paths as character strings.
//!
//! A path splits at `/` into components; empty components (from repeated or
//! trailing separators) and `.` components are dropped, and a leading `/`
//! makes the path absolute. On this model the library defines the file name,
//! extension, parent, prefix stripping and prefix test of a path, as the
//! scanner and the front ends use them.

use vstd::prelude::*;
use crate::text::{chars_concat, chars_of, chars_sub, opt_chars, string_from_chars};

verus! {

/// Whether a separator-free segment counts as a component.
pub open spec fn keep_component(c: Seq<char>) -> bool {
    c.len() > 0 && c != seq!['.']
}

/// The finished components and the segment being read after reading `s`
/// from left to right.
pub open spec fn split_state(s: Seq<char>) -> (Seq<Seq<char>>, Seq<char>)
    decreases s.len(),
{
    if s.len() == 0 {
        (Seq::empty(), Seq::empty())
    } else {
        let (done, cur) = split_state(s.drop_last());
        if s.last() == '/' {
            (if keep_component(cur) { done.push(cur) } else { done }, Seq::empty())
        } else {
            (done, cur.push(s.last()))
        }
    }
}

/// The components of a path, in order.
pub open spec fn components(s: Seq<char>) -> Seq<Seq<char>> {
    let (done, cur) = split_state(s);
    if keep_component(cur) {
        done.push(cur)
    } else {
        done
    }
}

pub open spec fn is_absolute(s: Seq<char>) -> bool {
    s.len() > 0 && s[0] == '/'
}

/// Components separated by single slashes.
pub open spec fn join_components(c: Seq<Seq<char>>) -> Seq<char>
    decreases c.len(),
{
    if c.len() == 0 {
        Seq::empty()
    } else if c.len() == 1 {
        c[0]
    } else {
        join_components(c.drop_last()) + seq!['/'] + c.last()
    }
}

/// The path made of the given components, absolute or not.
pub open spec fn build_path(absolute: bool, c: Seq<Seq<char>>) -> Seq<char> {
    if absolute {
        seq!['/'] + join_components(c)
    } else {
        join_components(c)
    }
}

/// The last component, unless there is none or it is `..`.
pub open spec fn file_name(s: Seq<char>) -> Option<Seq<char>> {
    let c = components(s);
    if c.len() == 0 || c.last() == seq!['.', '.'] {
        None
    } else {
        Some(c.last())
    }
}

/// Index of the last `.` in `s`, or -1.
pub open spec fn last_dot(s: Seq<char>) -> int
    decreases s.len(),
{
    if s.len() == 0 {
        -1
    } else if s.last() == '.' {
        s.len() - 1
    } else {
        last_dot(s.drop_last())
    }
}

/// What follows the last `.` of the file name, where that `.` is not its
/// first character.
pub open spec fn extension(s: Seq<char>) -> Option<Seq<char>> {
    match file_name(s) {
        None => None,
        Some(f) => {
            let k = last_dot(f);
            if k <= 0 {
                None
            } else {
                Some(f.subrange(k + 1, f.len() as int))
            }
        },
    }
}

/// The path without its last component; none for a path without components.
pub open spec fn parent(s: Seq<char>) -> Option<Seq<char>> {
    let c = components(s);
    if c.len() == 0 {
        None
    } else {
        Some(build_path(is_absolute(s), c.drop_last()))
    }
}

/// The relative path that leads from `base` to `path`, where `base` is a
/// component-wise prefix of `path` and both are absolute or both relative.
pub open spec fn strip_prefix(path: Seq<char>, base: Seq<char>) -> Option<Seq<char>> {
    let p = components(path);
    let b = components(base);
    if is_absolute(path) == is_absolute(base) && b.len() <= p.len() && p.take(b.len() as int) == b {
        Some(join_components(p.skip(b.len() as int)))
    } else {
        None
    }
}

pub open spec fn starts_with(path: Seq<char>, base: Seq<char>) -> bool {
    strip_prefix(path, base) is Some
}

fn keep_component_exec(c: &Vec<char>) -> (r: bool)
    ensures
        r == keep_component(c@),
{
    if c.len() == 0 {
        false
    } else if c.len() == 1 && c[0] == '.' {
        assert(c@ =~= seq!['.']);
        false
    } else {
        assert(c@.len() != 1 || c@[0] != '.');
        assert(c@ != seq!['.']) by {
            if c@ == seq!['.'] {
                assert(c@.len() == 1 && c@[0] == '.');
            }
        }
        true
    }
}

/// The components of the path whose characters are `s`.
pub fn components_of(s: &[char]) -> (r: Vec<Vec<char>>)
    ensures
        r.deep_view() == components(s@),
{
    let mut done: Vec<Vec<char>> = Vec::new();
    let mut cur: Vec<char> = Vec::new();
    let mut i: usize = 0;
    while i < s.len()
        invariant
            i <= s@.len(),
            (done.deep_view(), cur@) == split_state(s@.take(i as int)),
        decreases s@.len() - i,
    {
        let ghost prev_done = done.deep_view();
        let ghost prev_cur = cur@;
        assert(s@.take(i + 1).drop_last() =~= s@.take(i as int));
        assert(s@.take(i + 1).last() == s@[i as int]);
        if s[i] == '/' {
            if keep_component_exec(&cur) {
                let c = cur;
                done.push(c);
                assert(done.deep_view() =~~= prev_done.push(prev_cur));
            }
            cur = Vec::new();
            assert(cur@ =~= Seq::<char>::empty());
        } else {
            cur.push(s[i]);
        }
        i = i + 1;
    }
    assert(s@.take(s@.len() as int) =~= s@);
    let ghost prev_done = done.deep_view();
    if keep_component_exec(&cur) {
        let ghost c = cur@;
        done.push(cur);
        assert(done.deep_view() =~~= prev_done.push(c));
    }
    done
}

/// The components of `c` joined by single slashes.
pub fn join_components_exec(c: &Vec<Vec<char>>) -> (r: Vec<char>)
    ensures
        r@ == join_components(c.deep_view()),
{
    let mut out: Vec<char> = Vec::new();
    let mut i: usize = 0;
    while i < c.len()
        invariant
            i <= c@.len(),
            out@ == join_components(c.deep_view().take(i as int)),
        decreases c@.len() - i,
    {
        let ghost t = c.deep_view().take(i + 1);
        assert(t.drop_last() =~~= c.deep_view().take(i as int));
        assert(t.last() == c@[i as int]@);
        if i == 0 {
            out = chars_concat(out.as_slice(), c[i].as_slice());
            assert(t.len() == 1);
        } else {
            out.push('/');
            out = chars_concat(out.as_slice(), c[i].as_slice());
        }
        i = i + 1;
    }
    assert(c.deep_view().take(c@.len() as int) =~~= c.deep_view());
    out
}

fn is_absolute_exec(s: &[char]) -> (r: bool)
    ensures
        r == is_absolute(s@),
{
    s.len() > 0 && s[0] == '/'
}

/// The file name of `path`.
pub fn path_file_name(path: &str) -> (r: Option<String>)
    ensures
        opt_chars(r) == file_name(path@),
{
    let s = chars_of(path);
    let c = components_of(s.as_slice());
    if c.len() == 0 {
        return None;
    }
    let last = &c[c.len() - 1];
    assert(c.deep_view().last() == last@);
    if last.len() == 2 && last[0] == '.' && last[1] == '.' {
        assert(last@ =~= seq!['.', '.']);
        return None;
    }
    assert(last@ != seq!['.', '.']) by {
        if last@ == seq!['.', '.'] {
            assert(last@.len() == 2 && last@[0] == '.' && last@[1] == '.');
        }
    }
    Some(string_from_chars(last.as_slice()))
}

fn last_dot_exec(s: &[char]) -> (r: Option<usize>)
    ensures
        match r {
            Some(k) => k == last_dot(s@) && k < s@.len(),
            None => last_dot(s@) == -1,
        },
{
    let mut i: usize = s.len();
    assert(s@.take(s@.len() as int) =~= s@);
    while i > 0
        invariant
            i <= s@.len(),
            last_dot(s@) == last_dot(s@.take(i as int)),
        decreases i,
    {
        let ghost t = s@.take(i as int);
        assert(t.drop_last() =~= s@.take(i - 1));
        if s[i - 1] == '.' {
            return Some(i - 1);
        }
        i = i - 1;
    }
    assert(s@.take(0) =~= Seq::<char>::empty());
    None
}

/// The extension of `path`.
pub fn path_extension(path: &str) -> (r: Option<String>)
    ensures
        opt_chars(r) == extension(path@),
{
    let f = match path_file_name(path) {
        None => return None,
        Some(f) => f,
    };
    let fc = chars_of(f.as_str());
    match last_dot_exec(fc.as_slice()) {
        None => None,
        Some(k) => {
            let n = fc.len();
            assert(k < n);
            if k == 0 {
                None
            } else {
                let rest = chars_sub(fc.as_slice(), k + 1, n);
                Some(string_from_chars(rest.as_slice()))
            }
        },
    }
}

fn copy_chars(v: &Vec<char>) -> (r: Vec<char>)
    ensures
        r@ == v@,
{
    let r = chars_sub(v.as_slice(), 0, v.len());
    assert(r@ =~= v@);
    r
}

/// The components of `c` from index `from` on.
fn components_from(c: &Vec<Vec<char>>, from: usize) -> (r: Vec<Vec<char>>)
    requires
        from <= c@.len(),
    ensures
        r.deep_view() == c.deep_view().skip(from as int),
{
    let mut r: Vec<Vec<char>> = Vec::new();
    let mut i: usize = from;
    while i < c.len()
        invariant
            from <= i <= c@.len(),
            r.deep_view() == c.deep_view().subrange(from as int, i as int),
        decreases c@.len() - i,
    {
        let ghost prev = r.deep_view();
        let x = copy_chars(&c[i]);
        r.push(x);
        assert(c.deep_view()[i as int] == c@[i as int]@);
        assert(r.deep_view() =~~= prev.push(c@[i as int]@));
        assert(r.deep_view() =~~= c.deep_view().subrange(from as int, i + 1));
        i = i + 1;
    }
    assert(c.deep_view().skip(from as int) =~~= c.deep_view().subrange(from as int, c@.len() as int));
    r
}

/// The characters of the path made of the given components.
fn build_path_exec(absolute: bool, c: &Vec<Vec<char>>) -> (r: Vec<char>)
    ensures
        r@ == build_path(absolute, c.deep_view()),
{
    let joined = join_components_exec(c);
    if absolute {
        let mut root: Vec<char> = Vec::new();
        root.push('/');
        assert(root@ =~= seq!['/']);
        chars_concat(root.as_slice(), joined.as_slice())
    } else {
        joined
    }
}

/// The parent of `path`.
pub fn path_parent(path: &str) -> (r: Option<String>)
    ensures
        opt_chars(r) == parent(path@),
{
    let s = chars_of(path);
    let c = components_of(s.as_slice());
    if c.len() == 0 {
        return None;
    }
    let init = components_from_to(&c, c.len() - 1);
    assert(init.deep_view() =~~= c.deep_view().drop_last());
    let out = build_path_exec(is_absolute_exec(s.as_slice()), &init);
    Some(string_from_chars(out.as_slice()))
}

/// The first `to` components of `c`.
fn components_from_to(c: &Vec<Vec<char>>, to: usize) -> (r: Vec<Vec<char>>)
    requires
        to <= c@.len(),
    ensures
        r.deep_view() == c.deep_view().take(to as int),
{
    let mut r: Vec<Vec<char>> = Vec::new();
    let mut i: usize = 0;
    while i < to
        invariant
            i <= to <= c@.len(),
            r.deep_view() == c.deep_view().take(i as int),
        decreases to - i,
    {
        let ghost prev = r.deep_view();
        let x = copy_chars(&c[i]);
        r.push(x);
        assert(c.deep_view()[i as int] == c@[i as int]@);
        assert(r.deep_view() =~~= prev.push(c@[i as int]@));
        assert(r.deep_view() =~~= c.deep_view().take(i + 1));
        i = i + 1;
    }
    r
}

/// Whether the first `b.len()` components of `p` are those of `b`.
fn components_prefix(p: &Vec<Vec<char>>, b: &Vec<Vec<char>>) -> (r: bool)
    ensures
        r == (b@.len() <= p@.len() && p.deep_view().take(b@.len() as int) == b.deep_view()),
{
    if b.len() > p.len() {
        return false;
    }
    let mut i: usize = 0;
    while i < b.len()
        invariant
            b@.len() <= p@.len(),
            i <= b@.len(),
            forall|j: int| 0 <= j < i ==> p.deep_view()[j] == b.deep_view()[j],
        decreases b@.len() - i,
    {
        assert(p.deep_view()[i as int] == p@[i as int]@);
        assert(b.deep_view()[i as int] == b@[i as int]@);
        if !crate::text::chars_eq(p[i].as_slice(), b[i].as_slice()) {
            assert(p.deep_view().take(b@.len() as int)[i as int] != b.deep_view()[i as int]);
            return false;
        }
        i = i + 1;
    }
    assert(p.deep_view().take(b@.len() as int) =~~= b.deep_view());
    true
}

/// The path leading from `base` to `path`, if `base` is a prefix of `path`.
pub fn path_strip_prefix(path: &str, base: &str) -> (r: Option<String>)
    ensures
        opt_chars(r) == strip_prefix(path@, base@),
{
    let ps = chars_of(path);
    let bs = chars_of(base);
    let p = components_of(ps.as_slice());
    let b = components_of(bs.as_slice());
    if is_absolute_exec(ps.as_slice()) != is_absolute_exec(bs.as_slice()) {
        return None;
    }
    if !components_prefix(&p, &b) {
        return None;
    }
    let rest = components_from(&p, b.len());
    let out = join_components_exec(&rest);
    Some(string_from_chars(out.as_slice()))
}

/// Whether `base` is a component-wise prefix of `path`.
pub fn path_starts_with(path: &str, base: &str) -> (r: bool)
    ensures
        r == starts_with(path@, base@),
{
    path_strip_prefix(path, base).is_some()
}

/// Whether two paths are the same path: both absolute or both relative, with
/// the same components.
pub open spec fn same_path(a: Seq<char>, b: Seq<char>) -> bool {
    is_absolute(a) == is_absolute(b) && components(a) == components(b)
}

/// Whether two paths are the same path.
pub fn paths_equal(a: &str, b: &str) -> (r: bool)
    ensures
        r == same_path(a@, b@),
{
    let av = chars_of(a);
    let bv = chars_of(b);
    if is_absolute_exec(av.as_slice()) != is_absolute_exec(bv.as_slice()) {
        return false;
    }
    let ac = components_of(av.as_slice());
    let bc = components_of(bv.as_slice());
    assert(ac.deep_view().len() == ac@.len() && bc.deep_view().len() == bc@.len());
    if ac.len() != bc.len() {
        return false;
    }
    let mut i: usize = 0;
    while i < ac.len()
        invariant
            i <= ac@.len(),
            ac@.len() == bc@.len(),
            ac.deep_view() == components(a@),
            bc.deep_view() == components(b@),
            forall|k: int| 0 <= k < i ==> ac.deep_view()[k] == bc.deep_view()[k],
        decreases ac@.len() - i,
    {
        assert(ac.deep_view()[i as int] == ac[i as int]@);
        assert(bc.deep_view()[i as int] == bc[i as int]@);
        if !crate::text::chars_eq(ac[i].as_slice(), bc[i].as_slice()) {
            assert(ac.deep_view()[i as int] != bc.deep_view()[i as int]);
            return false;
        }
        i = i + 1;
    }
    assert(ac.deep_view() =~= bc.deep_view());
    true
}

} // verus!
