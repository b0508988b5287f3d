//! Paths as text: file names, extensions, stems and joins, the way std's
//! `Path` reads a UTF-8 path on a `/`-separated system.

use vstd::prelude::*;
use crate::text::{chars_of, rfind_char, rindex_of, slice_chars, lemma_rindex_of, string_from_chars};

verus! {

broadcast use vstd::string::group_string_axioms;

/// What `std::path::Path::file_name` gives for a path: its final component,
/// or nothing for a root, an empty path or one that ends in `..`. Which
/// characters separate components is the platform's the library is built
/// for.
pub uninterp spec fn std_file_name(p: Seq<char>) -> Option<Seq<char>>;

/// Calls `std::path::Path::file_name`. Trusted: the result is exactly the
/// named `std_file_name` of the argument; nothing more is claimed of it.
#[verifier::external_body]
pub(crate) fn file_name(p: &str) -> (r: Option<String>)
    ensures
        match r {
            None => std_file_name(p@) is None,
            Some(n) => std_file_name(p@) == Some(n@),
        },
{
    std::path::Path::new(p).file_name().map(|n| n.to_string_lossy().into_owned())
}

/// The extension of a file name, as `Path::extension` documents it: none
/// without an embedded dot or when the only dot leads the name, otherwise
/// what follows the last dot.
pub open spec fn name_extension(n: Seq<char>) -> Option<Seq<char>> {
    let k = rindex_of(n, '.');
    if k <= 0 {
        None
    } else {
        Some(n.skip(k + 1))
    }
}

/// The stem of a file name, as `Path::file_stem` documents it: the whole
/// name without an embedded dot or when the only dot leads it, otherwise
/// what comes before the last dot.
pub open spec fn name_stem(n: Seq<char>) -> Seq<char> {
    let k = rindex_of(n, '.');
    if k <= 0 {
        n
    } else {
        n.take(k)
    }
}

/// `Path::extension`.
pub open spec fn extension(p: Seq<char>) -> Option<Seq<char>> {
    match std_file_name(p) {
        None => None,
        Some(n) => name_extension(n),
    }
}

/// `Path::file_stem`.
pub open spec fn file_stem(p: Seq<char>) -> Option<Seq<char>> {
    match std_file_name(p) {
        None => None,
        Some(n) => Some(name_stem(n)),
    }
}

pub fn name_extension_of(n: &[char]) -> (r: Option<Vec<char>>)
    ensures
        match r {
            None => name_extension(n@) is None,
            Some(e) => name_extension(n@) == Some(e@),
        },
{
    proof {
        lemma_rindex_of(n@, '.');
    }
    match rfind_char(n, '.') {
        None => None,
        Some(k) => {
            if k == 0 {
                None
            } else {
                assert(k < n.len());
                let e = slice_chars(n, k + 1, n.len());
                assert(e@ =~= n@.skip(k + 1));
                Some(e)
            }
        },
    }
}

pub fn name_stem_of(n: &[char]) -> (r: Vec<char>)
    ensures
        r@ == name_stem(n@),
{
    proof {
        lemma_rindex_of(n@, '.');
    }
    match rfind_char(n, '.') {
        None => slice_chars(n, 0, n.len()),
        Some(k) => {
            if k == 0 {
                slice_chars(n, 0, n.len())
            } else {
                let s = slice_chars(n, 0, k);
                assert(s@ =~= n@.take(k as int));
                s
            }
        },
    }
}

/// `Path::extension`, as characters.
pub fn extension_of(p: &str) -> (r: Option<Vec<char>>)
    ensures
        match r {
            None => extension(p@) is None,
            Some(e) => extension(p@) == Some(e@),
        },
{
    match file_name(p) {
        None => None,
        Some(n) => name_extension_of(&chars_of(n.as_str())),
    }
}

/// `Path::file_stem`, as characters.
pub fn file_stem_of(p: &str) -> (r: Option<Vec<char>>)
    ensures
        match r {
            None => file_stem(p@) is None,
            Some(s) => file_stem(p@) == Some(s@),
        },
{
    match file_name(p) {
        None => None,
        Some(n) => Some(name_stem_of(&chars_of(n.as_str()))),
    }
}

/// `PathBuf::push` of `c` onto `dir`: an absolute `c` replaces `dir`;
/// otherwise `c` follows `dir` with one separator between them.
pub open spec fn push(dir: Seq<char>, c: Seq<char>) -> Seq<char> {
    if c.len() > 0 && c[0] == '/' {
        c
    } else if dir.len() == 0 {
        c
    } else if dir.last() == '/' {
        dir + c
    } else {
        dir + seq!['/'] + c
    }
}

pub fn push_chars_path(dir: &[char], c: &[char]) -> (r: Vec<char>)
    ensures
        r@ == push(dir@, c@),
{
    let mut out: Vec<char> = Vec::new();
    if c.len() > 0 && c[0] == '/' {
        crate::text::push_chars(&mut out, c);
        assert(out@ =~= c@);
        return out;
    }
    crate::text::push_chars(&mut out, dir);
    if dir.len() > 0 && dir[dir.len() - 1] != '/' {
        out.push('/');
    }
    crate::text::push_chars(&mut out, c);
    assert(out@ =~= push(dir@, c@));
    out
}

/// `Path::join` of one relative name, as a string.
pub fn join(dir: &str, name: &str) -> (r: String)
    ensures
        r@ == push(dir@, name@),
{
    let v = push_chars_path(&chars_of(dir), &chars_of(name));
    string_from_chars(&v)
}

} // verus!
