//! What to do with an archive found in a drop, and what its failure means.

use vstd::prelude::*;
use crate::dat::{EntryView, Index};
use crate::magic::{Archive, Kind};
use crate::system::{among, strs};
use crate::text::{chars_of, contains_literal, contains_seq, decimal, dec, is_ascii_alnum, is_ascii_alnum_char,
    lower_chars, lower_seq, push_chars, push_str, starts_with_chars, string_from_chars, trim, trim_chars};
use crate::util::{stem_of, stem_spec};

verus! {

broadcast use vstd::string::group_string_axioms;

/// A file that could not be unpacked, and why.
#[derive(Debug)]
pub struct UnpackFailure {
    pub path: String,
    pub reason: String,
}

/// Why an archive did not unpack.
#[derive(Debug)]
pub enum UnpackError {
    PasswordProtected,
    Other(String),
}

impl UnpackError {
    /// An error carrying the words something else said.
    pub fn other(message: String) -> (r: UnpackError)
        ensures
            r == UnpackError::Other(message),
    {
        UnpackError::Other(message)
    }

    /// What the error says.
    pub fn message(&self) -> (r: String)
        ensures
            r@ == match self {
                UnpackError::PasswordProtected => "archive is password protected"@,
                UnpackError::Other(m) => m@,
            },
    {
        match self {
            UnpackError::PasswordProtected => "archive is password protected".to_string(),
            UnpackError::Other(m) => m.clone(),
        }
    }
}

/// Whether a tool's words say the archive wanted a password.
pub open spec fn password_words(s: Seq<char>) -> bool {
    let l = lower_seq(s);
    contains_seq(l, "password"@) || contains_seq(l, "encrypted"@) || contains_seq(
        l,
        "invalidpassword"@,
    )
}

pub fn looks_like_password(s: &str) -> (r: bool)
    ensures
        r == password_words(s@),
{
    let l = lower_chars(&chars_of(s));
    contains_literal(&l, "password") || contains_literal(&l, "encrypted") || contains_literal(
        &l,
        "invalidpassword",
    )
}

pub open spec fn disc_exts() -> Seq<Seq<char>> {
    seq![
        "bin"@,
        "cue"@,
        "chd"@,
        "iso"@,
        "pbp"@,
        "gcm"@,
        "wbfs"@,
        "rvz"@,
        "nkit"@,
        "img"@,
        "mdf"@,
    ]
}

pub open spec fn rider_exts() -> Seq<Seq<char>> {
    seq![
        "txt"@,
        "pdf"@,
        "doc"@,
        "docx"@,
        "png"@,
        "jpg"@,
        "jpeg"@,
        "gif"@,
        "webp"@,
        "bmp"@,
        "nfo"@,
        "md"@,
        "html"@,
        "htm"@,
        "rtf"@,
        "epub"@,
        "srt"@,
        "sub"@,
        "chm"@,
    ]
}

/// Save extensions: `srm`, `dsv`, and anything starting with `state`.
pub open spec fn is_save_ext_spec(e: Seq<char>) -> bool {
    e == "srm"@ || e == "dsv"@ || e == "state"@ || ("state"@.len() <= e.len() && e.take(
        "state"@.len() as int,
    ) == "state"@)
}

pub fn is_disc_ext(ext: &str) -> (r: bool)
    ensures
        r == disc_exts().contains(ext@),
{
    let list: [&str; 11] = ["bin", "cue", "chd", "iso", "pbp", "gcm", "wbfs", "rvz", "nkit", "img", "mdf"];
    assert(strs(list@) =~= disc_exts());
    among(&chars_of(ext), &list)
}

pub fn is_rider_ext(ext: &str) -> (r: bool)
    ensures
        r == rider_exts().contains(ext@),
{
    let list: [&str; 19] = [
        "txt",
        "pdf",
        "doc",
        "docx",
        "png",
        "jpg",
        "jpeg",
        "gif",
        "webp",
        "bmp",
        "nfo",
        "md",
        "html",
        "htm",
        "rtf",
        "epub",
        "srt",
        "sub",
        "chm",
    ];
    assert(strs(list@) =~= rider_exts());
    among(&chars_of(ext), &list)
}

pub fn is_save_ext(ext: &str) -> (r: bool)
    ensures
        r == is_save_ext_spec(ext@),
{
    let e = chars_of(ext);
    crate::text::is_literal(&e, "srm") || crate::text::is_literal(&e, "dsv")
        || crate::text::is_literal(&e, "state") || starts_with_chars(&e, &chars_of("state"))
}

/// Lower-cased, with everything but ASCII letters and digits dropped.
pub open spec fn normalize_spec(s: Seq<char>) -> Seq<char> {
    lower_seq(s).filter(|c: char| is_ascii_alnum(c))
}

pub fn normalize(s: &[char]) -> (r: Vec<char>)
    ensures
        r@ == normalize_spec(s@),
{
    let l = lower_chars(s);
    let mut out: Vec<char> = Vec::new();
    let mut i: usize = 0;
    while i < l.len()
        invariant
            i <= l@.len(),
            out@ == l@.take(i as int).filter(|c: char| is_ascii_alnum(c)),
        decreases l@.len() - i,
    {
        let c = l[i];
        assert(l@.take(i + 1).drop_last() =~= l@.take(i as int));
        reveal_with_fuel(Seq::<_>::filter, 1);
        if is_ascii_alnum_char(c) {
            out.push(c);
        }
        i += 1;
    }
    assert(l@.take(l@.len() as int) =~= l@);
    out
}

/// An entry is an arcade set with this (normalized) name.
pub open spec fn arcade_match(e: EntryView, stem_norm: Seq<char>) -> bool {
    lower_seq(e.2) == "arcade"@ && normalize_spec(e.1) == stem_norm
}

/// Whether a zip is an arcade set the DAT knows by name: such a zip is a
/// game, kept whole, rather than a container to unpack.
pub fn is_arcade_zip(path: &str, dat: &Index) -> (r: bool)
    ensures
        r == exists|i: int|
            0 <= i < dat@.len() && #[trigger] arcade_match(dat@[i], normalize_spec(stem_spec(path@))),
{
    let stem = stem_of(path);
    let stem_norm = normalize(&chars_of(stem.as_str()));
    let entries = dat.entries();
    let mut i: usize = 0;
    while i < entries.len()
        invariant
            i <= entries@.len(),
            entries@.map_values(|e: crate::dat::Entry| e@) == dat@,
            stem_norm@ == normalize_spec(stem_spec(path@)),
            forall|j: int| 0 <= j < i ==> !arcade_match(#[trigger] dat@[j], stem_norm@),
        decreases entries@.len() - i,
    {
        let e = &entries[i];
        assert(dat@[i as int] == e@);
        let sys = lower_chars(&chars_of(e.system.as_str()));
        if crate::text::is_literal(&sys, "arcade") {
            let t = normalize(&chars_of(e.title.as_str()));
            if crate::text::same_chars(&t, &stem_norm) {
                assert(arcade_match(dat@[i as int], stem_norm@));
                return true;
            }
        }
        i += 1;
    }
    false
}

/// What a file found in a drop becomes.
#[derive(Debug, Clone, Copy, PartialEq, Eq, Structural)]
pub enum Route {
    /// Shelved as it is.
    Leaf,
    /// Unpacked, and what comes out looked at in turn.
    Unpack(Archive),
}

/// The route for a file: archives are unpacked, except a zip that is an
/// arcade set; everything else is a leaf.
pub fn route(kind: Kind, arcade_zip: bool) -> (r: Route)
    ensures
        r == match kind {
            Kind::Archive(a) => if a == Archive::Zip && arcade_zip {
                Route::Leaf
            } else {
                Route::Unpack(a)
            },
            _ => Route::Leaf,
        },
{
    match kind {
        Kind::Archive(a) => {
            if a == Archive::Zip && arcade_zip {
                Route::Leaf
            } else {
                Route::Unpack(a)
            }
        },
        _ => Route::Leaf,
    }
}

/// What a zip extraction amounts to: nothing extracted and an error seen is
/// a failure, a password one if the error says so; anything else is fine.
pub fn zip_outcome(extracted: usize, first_err: Option<String>) -> (r: Result<(), UnpackError>)
    ensures
        match first_err {
            Some(e) if extracted == 0 => if password_words(e@) {
                r == Err::<(), UnpackError>(UnpackError::PasswordProtected)
            } else {
                r == Err::<(), UnpackError>(UnpackError::Other(e))
            },
            _ => r == Ok::<(), UnpackError>(()),
        },
{
    if extracted == 0 {
        if let Some(e) = first_err {
            if looks_like_password(e.as_str()) {
                return Err(UnpackError::PasswordProtected);
            }
            return Err(UnpackError::Other(e));
        }
    }
    Ok(())
}

/// What a 7-Zip failure means: a password, if it mentions one, AES or
/// encryption.
pub fn seven_z_error(message: String) -> (r: UnpackError)
    ensures
        if password_words(message@) || contains_seq(lower_seq(message@), "aes"@)
            || contains_seq(lower_seq(message@), "encrypted"@) {
            r == UnpackError::PasswordProtected
        } else {
            r == UnpackError::Other(message)
        },
{
    let lower = lower_chars(&chars_of(message.as_str()));
    if looks_like_password(message.as_str()) || contains_literal(&lower, "aes")
        || contains_literal(&lower, "encrypted") {
        UnpackError::PasswordProtected
    } else {
        UnpackError::Other(message)
    }
}

/// What a failed `unrar` run means, from its stdout and stderr.
pub fn rar_error(stdout: &str, stderr: &str) -> (r: UnpackError)
    ensures
        ({
            let all = stdout@ + seq!['\n'] + stderr@;
            if password_words(all) {
                r == UnpackError::PasswordProtected
            } else {
                r matches UnpackError::Other(m) && m@ == trim(all)
            }
        }),
{
    let mut all = chars_of(stdout);
    all.push('\n');
    push_chars(&mut all, &chars_of(stderr));
    assert(all@ =~= stdout@ + seq!['\n'] + stderr@);
    let text = string_from_chars(&all);
    if looks_like_password(text.as_str()) {
        UnpackError::PasswordProtected
    } else {
        UnpackError::Other(string_from_chars(&trim_chars(&all)))
    }
}

/// How an extraction is going: how many entries came out, and the first
/// error seen.
pub struct ZipProgress {
    pub extracted: usize,
    pub first_err: Option<String>,
}

impl ZipProgress {
    /// Nothing out yet and nothing wrong.
    pub fn new() -> (r: ZipProgress)
        ensures
            r.extracted == 0,
            r.first_err is None,
    {
        ZipProgress { extracted: 0, first_err: None }
    }

    /// An error: kept if it is the first.
    pub fn failed(&mut self, e: String)
        ensures
            final(self).extracted == old(self).extracted,
            final(self).first_err == match old(self).first_err {
                Some(f) => Some(f),
                None => Some(e),
            },
    {
        if self.first_err.is_none() {
            self.first_err = Some(e);
        }
    }

    /// An entry written out.
    pub fn wrote(&mut self)
        requires
            old(self).extracted < usize::MAX,
        ensures
            final(self).extracted == old(self).extracted + 1,
            final(self).first_err == old(self).first_err,
    {
        self.extracted = self.extracted + 1;
    }

    /// What the extraction amounts to, as `zip_outcome` says.
    pub fn outcome(self) -> (r: Result<(), UnpackError>)
        ensures
            match self.first_err {
                Some(e) if self.extracted == 0 => if password_words(e@) {
                    r == Err::<(), UnpackError>(UnpackError::PasswordProtected)
                } else {
                    r == Err::<(), UnpackError>(UnpackError::Other(e))
                },
                _ => r == Ok::<(), UnpackError>(()),
            },
    {
        zip_outcome(self.extracted, self.first_err)
    }
}

/// The name a gzip stream is written out under: its stem, or `file`.
pub fn gzip_entry_name(stem: &str) -> (r: String)
    ensures
        r@ == if stem@.len() == 0 || stem@ == "unnamed"@ {
            "file"@
        } else {
            stem@
        },
{
    let s = chars_of(stem);
    if s.len() == 0 || crate::text::is_literal(&s, "unnamed") {
        "file".to_string()
    } else {
        stem.to_string()
    }
}

/// The `n`th name tried for an unpacked archive's folder: `base.n`.
pub fn sibling_candidate(base: &str, n: u64) -> (r: String)
    ensures
        r@ == base@ + seq!['.'] + dec(n as nat),
{
    let mut v = chars_of(base);
    v.push('.');
    push_chars(&mut v, &decimal(n));
    string_from_chars(&v)
}

} // verus!
