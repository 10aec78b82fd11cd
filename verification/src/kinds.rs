//! Recognizing images and videos by MIME type and file extension.

use vstd::prelude::*;
use crate::paths::{extension, path_extension};
use crate::text::{ascii_lower_seq, char_to_ascii_lower, chars_eq, chars_of, chars_start_with};

verus! {

pub open spec fn has_prefix(s: Seq<char>, p: Seq<char>) -> bool {
    p.len() <= s.len() && s.take(p.len() as int) == p
}

/// Whether a MIME type is in the given top-level type (`image/`, `video/`).
pub open spec fn mime_in(file_type: Option<Seq<char>>, top: Seq<char>) -> bool {
    file_type matches Some(m) && has_prefix(m, top)
}

pub open spec fn video_extension(e: Seq<char>) -> bool {
    ||| e == seq!['m', 'p', '4']
    ||| e == seq!['m', '4', 'v']
    ||| e == seq!['m', 'o', 'v']
    ||| e == seq!['m', 'k', 'v']
    ||| e == seq!['w', 'e', 'b', 'm']
    ||| e == seq!['a', 'v', 'i']
    ||| e == seq!['m', 'p', 'e', 'g']
    ||| e == seq!['m', 'p', 'g']
    ||| e == seq!['m', 'p', 'e']
    ||| e == seq!['t', 's']
    ||| e == seq!['m', 't', 's']
    ||| e == seq!['m', '2', 't', 's']
    ||| e == seq!['3', 'g', 'p']
    ||| e == seq!['3', 'g', '2']
    ||| e == seq!['w', 'm', 'v']
    ||| e == seq!['f', 'l', 'v']
    ||| e == seq!['f', '4', 'v']
    ||| e == seq!['o', 'g', 'v']
    ||| e == seq!['m', 'x', 'f']
}

pub open spec fn image_extension(e: Seq<char>) -> bool {
    ||| e == seq!['j', 'p', 'g']
    ||| e == seq!['j', 'p', 'e', 'g']
    ||| e == seq!['p', 'n', 'g']
    ||| e == seq!['g', 'i', 'f']
    ||| e == seq!['b', 'm', 'p']
    ||| e == seq!['t', 'i', 'f', 'f']
    ||| e == seq!['w', 'e', 'b', 'p']
    ||| e == seq!['a', 'v', 'i', 'f']
    ||| e == seq!['h', 'e', 'i', 'c']
    ||| e == seq!['h', 'e', 'i', 'f']
}

/// A file is a video when its MIME type is `video/...` or its extension,
/// lower-cased, is one of the usual video extensions.
pub open spec fn is_video(path: Seq<char>, file_type: Option<Seq<char>>) -> bool {
    mime_in(file_type, seq!['v', 'i', 'd', 'e', 'o', '/'])
        || (extension(path) matches Some(e) && video_extension(ascii_lower_seq(e)))
}

/// A file is an image when its MIME type is `image/...` or its extension,
/// lower-cased, is one of the usual image extensions.
pub open spec fn is_image(path: Seq<char>, file_type: Option<Seq<char>>) -> bool {
    mime_in(file_type, seq!['i', 'm', 'a', 'g', 'e', '/'])
        || (extension(path) matches Some(e) && image_extension(ascii_lower_seq(e)))
}

fn lower_chars(s: &[char]) -> (r: Vec<char>)
    ensures
        r@ == ascii_lower_seq(s@),
{
    let mut r: Vec<char> = Vec::new();
    let mut i: usize = 0;
    while i < s.len()
        invariant
            i <= s@.len(),
            r@ == ascii_lower_seq(s@.take(i as int)),
        decreases s@.len() - i,
    {
        r.push(char_to_ascii_lower(s[i]));
        assert(r@ =~= ascii_lower_seq(s@.take(i + 1)));
        i = i + 1;
    }
    assert(s@.take(s@.len() as int) =~= s@);
    r
}

fn lit_eq(v: &[char], lit: &[char]) -> (r: bool)
    ensures
        r == (v@ == lit@),
{
    chars_eq(v, lit)
}

fn is_video_extension(e: &[char]) -> (r: bool)
    ensures
        r == video_extension(e@),
{
    let r = lit_eq(e, &['m', 'p', '4']) || lit_eq(e, &['m', '4', 'v']) || lit_eq(e, &['m', 'o', 'v'])
        || lit_eq(e, &['m', 'k', 'v']) || lit_eq(e, &['w', 'e', 'b', 'm']) || lit_eq(e, &['a', 'v', 'i'])
        || lit_eq(e, &['m', 'p', 'e', 'g']) || lit_eq(e, &['m', 'p', 'g']) || lit_eq(e, &['m', 'p', 'e'])
        || lit_eq(e, &['t', 's']) || lit_eq(e, &['m', 't', 's']) || lit_eq(e, &['m', '2', 't', 's'])
        || lit_eq(e, &['3', 'g', 'p']) || lit_eq(e, &['3', 'g', '2']) || lit_eq(e, &['w', 'm', 'v'])
        || lit_eq(e, &['f', 'l', 'v']) || lit_eq(e, &['f', '4', 'v']) || lit_eq(e, &['o', 'g', 'v'])
        || lit_eq(e, &['m', 'x', 'f']);
    r
}

fn is_image_extension(e: &[char]) -> (r: bool)
    ensures
        r == image_extension(e@),
{
    lit_eq(e, &['j', 'p', 'g']) || lit_eq(e, &['j', 'p', 'e', 'g']) || lit_eq(e, &['p', 'n', 'g'])
        || lit_eq(e, &['g', 'i', 'f']) || lit_eq(e, &['b', 'm', 'p']) || lit_eq(e, &['t', 'i', 'f', 'f'])
        || lit_eq(e, &['w', 'e', 'b', 'p']) || lit_eq(e, &['a', 'v', 'i', 'f'])
        || lit_eq(e, &['h', 'e', 'i', 'c']) || lit_eq(e, &['h', 'e', 'i', 'f'])
}

fn mime_has_top(file_type: Option<&str>, top: &[char]) -> (r: bool)
    ensures
        r == (file_type matches Some(m) && has_prefix(m@, top@)),
{
    match file_type {
        Some(m) => {
            let cs = chars_of(m);
            chars_start_with(cs.as_slice(), top)
        },
        None => false,
    }
}

pub open spec fn opt_str(o: Option<&str>) -> Option<Seq<char>> {
    match o {
        Some(s) => Some(s@),
        None => None,
    }
}

/// Whether the file at `path`, of the given MIME type, is a video.
pub fn is_video_file(path: &str, file_type: Option<&str>) -> (r: bool)
    ensures
        r == is_video(path@, opt_str(file_type)),
{
    if mime_has_top(file_type, &['v', 'i', 'd', 'e', 'o', '/']) {
        return true;
    }
    match path_extension(path) {
        None => false,
        Some(e) => {
            let l = lower_chars(chars_of(e.as_str()).as_slice());
            is_video_extension(l.as_slice())
        },
    }
}

/// Whether the file at `path`, of the given MIME type, is an image.
pub fn is_image_file(path: &str, file_type: Option<&str>) -> (r: bool)
    ensures
        r == is_image(path@, opt_str(file_type)),
{
    if mime_has_top(file_type, &['i', 'm', 'a', 'g', 'e', '/']) {
        return true;
    }
    match path_extension(path) {
        None => false,
        Some(e) => {
            let l = lower_chars(chars_of(e.as_str()).as_slice());
            is_image_extension(l.as_slice())
        },
    }
}

/// The usual still-image extensions: jpg, jpeg, png, gif, bmp, tiff, webp,
/// avif, heic and heif.
pub open spec fn usual_image_extension(e: Seq<char>) -> bool {
    e =~= seq!['j', 'p', 'g'] || e =~= seq!['j', 'p', 'e', 'g'] || e =~= seq!['p', 'n', 'g'] || e =~= seq![
        'g',
        'i',
        'f',
    ] || e =~= seq!['b', 'm', 'p'] || e =~= seq!['t', 'i', 'f', 'f'] || e =~= seq!['w', 'e', 'b', 'p'] || e
        =~= seq!['a', 'v', 'i', 'f'] || e =~= seq!['h', 'e', 'i', 'c'] || e =~= seq!['h', 'e', 'i', 'f']
}

/// A file whose extension, in any case, is one of the usual still-image
/// extensions is an image, whatever its MIME type says; and, with no MIME
/// type, it is not a video.
pub proof fn lemma_usual_image_extensions(path: Seq<char>, file_type: Option<Seq<char>>)
    requires
        extension(path) is Some,
        usual_image_extension(ascii_lower_seq(extension(path)->0)),
    ensures
        is_image(path, file_type),
        !is_video(path, None),
{
    let e = ascii_lower_seq(extension(path)->0);
    assert(image_extension(e));
    if video_extension(e) {
        assert(e.len() >= 2);
        assert(false);
    }
}

} // verus!
