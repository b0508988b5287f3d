//! Where RetroArch and its cores are looked for, and how RetroArch's own
//! configuration is read.

use vstd::prelude::*;
use crate::path::{file_name, join, push, std_file_name};
use crate::text::{chars_of, contains_literal, contains_seq, is_literal, is_ws, is_ws_char, lines, lines_chars,
    lower_chars, lower_seq, push_chars, push_str, same_chars, slice_chars, split, split_chars, split_once,
    split_once_chars, starts_with_chars, string_from_chars, trim, trim_chars, trim_start, trim_start_chars,
    views, lemma_split_nonempty};
use crate::util::{ext_of, ext_spec};
use crate::shelve::strings;

verus! {

broadcast use vstd::string::group_string_axioms;

/// The platform conventions a search follows.
#[derive(Debug, Clone, Copy, PartialEq, Eq, Structural)]
pub enum Platform {
    Windows,
    MacOs,
    Linux,
}

/// The extension of a libretro core on a platform.
pub open spec fn core_ext(p: Platform) -> Seq<char> {
    match p {
        Platform::Windows => "dll"@,
        Platform::MacOs => "dylib"@,
        Platform::Linux => "so"@,
    }
}

pub fn core_ext_of(p: Platform) -> (r: &'static str)
    ensures
        r@ == core_ext(p),
{
    match p {
        Platform::Windows => "dll",
        Platform::MacOs => "dylib",
        Platform::Linux => "so",
    }
}

/// The file name of a libretro core: `<core>_libretro.<ext>`.
pub open spec fn core_file_spec(core: Seq<char>, p: Platform) -> Seq<char> {
    core + "_libretro."@ + core_ext(p)
}

pub fn core_file_name(core: &str, platform: Platform) -> (r: String)
    ensures
        r@ == core_file_spec(core@, platform),
{
    let mut v = chars_of(core);
    push_str(&mut v, "_libretro.");
    push_str(&mut v, core_ext_of(platform));
    string_from_chars(&v)
}

/// What to hand `-L`: the core's full path when it is there, otherwise its
/// file name for RetroArch to resolve.
pub fn core_argument(core: &str, cores: Option<&str>, present: bool, platform: Platform) -> (r: String)
    ensures
        r@ == match cores {
            Some(d) => if present {
                push(d@, core_file_spec(core@, platform))
            } else {
                core_file_spec(core@, platform)
            },
            None => core_file_spec(core@, platform),
        },
{
    let file = core_file_name(core, platform);
    match cores {
        Some(d) => if present {
            join(d, file.as_str())
        } else {
            file
        },
        None => file,
    }
}

/// Whether a directory entry is a libretro core on this platform: it has
/// the core extension and `_libretro` in its name.
pub open spec fn is_core_file_spec(name: Seq<char>, p: Platform) -> bool {
    crate::path::name_extension(name) == Some(core_ext(p)) && contains_seq(name, "_libretro"@)
}

pub fn is_core_file(name: &str, platform: Platform) -> (r: bool)
    ensures
        r == is_core_file_spec(name@, platform),
{
    let n = chars_of(name);
    let ext_ok = match crate::path::name_extension_of(&n) {
        Some(e) => is_literal(&e, core_ext_of(platform)),
        None => false,
    };
    ext_ok && contains_literal(&n, "_libretro")
}

/// The names a RetroArch binary goes by.
pub open spec fn binary_names_spec(p: Platform) -> Seq<Seq<char>> {
    match p {
        Platform::Windows => seq!["retroarch.exe"@, "retroarch"@],
        _ => seq!["retroarch"@, "org.libretro.RetroArch"@],
    }
}

pub fn binary_names(platform: Platform) -> (r: Vec<&'static str>)
    ensures
        r@.map_values(|s: &str| s@) == binary_names_spec(platform),
{
    let mut v: Vec<&'static str> = Vec::new();
    match platform {
        Platform::Windows => {
            v.push("retroarch.exe");
            v.push("retroarch");
        },
        _ => {
            v.push("retroarch");
            v.push("org.libretro.RetroArch");
        },
    }
    assert(v@.map_values(|s: &str| s@) =~= binary_names_spec(platform));
    v
}

/// Leading and trailing `"` removed, as `trim_matches('"')` does.
pub open spec fn strip_quotes_start(s: Seq<char>) -> Seq<char>
    decreases s.len(),
{
    if s.len() > 0 && s[0] == '"' {
        strip_quotes_start(s.drop_first())
    } else {
        s
    }
}

pub open spec fn strip_quotes_end(s: Seq<char>) -> Seq<char>
    decreases s.len(),
{
    if s.len() > 0 && s.last() == '"' {
        strip_quotes_end(s.drop_last())
    } else {
        s
    }
}

pub open spec fn strip_quotes(s: Seq<char>) -> Seq<char> {
    strip_quotes_end(strip_quotes_start(s))
}

fn strip_quotes_chars(s: &[char]) -> (r: Vec<char>)
    ensures
        r@ == strip_quotes(s@),
{
    let mut i: usize = 0;
    assert(s@.skip(0) =~= s@);
    while i < s.len() && s[i] == '"'
        invariant
            i <= s@.len(),
            strip_quotes_start(s@) == strip_quotes_start(s@.skip(i as int)),
        decreases s@.len() - i,
    {
        assert(s@.skip(i as int).drop_first() =~= s@.skip(i + 1));
        i += 1;
    }
    let a = slice_chars(s, i, s.len());
    assert(a@ =~= s@.skip(i as int));
    let mut j: usize = a.len();
    assert(a@.take(j as int) =~= a@);
    while j > 0 && a[j - 1] == '"'
        invariant
            j <= a@.len(),
            strip_quotes_end(a@) == strip_quotes_end(a@.take(j as int)),
        decreases j,
    {
        assert(a@.take(j as int).drop_last() =~= a@.take(j - 1));
        j -= 1;
    }
    let r = slice_chars(&a, 0, j);
    assert(r@ =~= a@.take(j as int));
    r
}

/// The value RetroArch's configuration gives `key`, read line by line from
/// the top: comments are skipped, the first line that is not a comment and
/// has no `=` ends the search, and an empty value or `default` counts as
/// unset.
pub open spec fn config_value_spec(ls: Seq<Seq<char>>, key: Seq<char>) -> Option<Seq<char>>
    decreases ls.len(),
{
    if ls.len() == 0 {
        None
    } else {
        let l = trim(ls[0]);
        if l.len() > 0 && l[0] == '#' {
            config_value_spec(ls.drop_first(), key)
        } else {
            match split_once(l, '=') {
                None => None,
                Some((name, value)) => if trim(name) != key {
                    config_value_spec(ls.drop_first(), key)
                } else {
                    let v = trim(strip_quotes(trim(value)));
                    if v.len() == 0 || v == "default"@ {
                        None
                    } else {
                        Some(v)
                    }
                },
            }
        }
    }
}

pub fn config_value(text: &str, key: &str) -> (r: Option<String>)
    ensures
        match r {
            None => config_value_spec(lines(text@), key@) is None,
            Some(v) => config_value_spec(lines(text@), key@) == Some(v@),
        },
{
    let ls = lines_chars(&chars_of(text));
    let ghost lv = lines(text@);
    let k = chars_of(key);
    let mut i: usize = 0;
    assert(lv.skip(0) =~= lv);
    while i < ls.len()
        invariant
            i <= ls@.len(),
            views(ls@) == lv,
            lv == lines(text@),
            k@ == key@,
            config_value_spec(lv, key@) == config_value_spec(lv.skip(i as int), key@),
        decreases ls@.len() - i,
    {
        assert(lv.skip(i as int)[0] == ls@[i as int]@);
        assert(lv.skip(i as int).drop_first() =~= lv.skip(i + 1));
        let line = trim_chars(&ls[i]);
        if line.len() > 0 && line[0] == '#' {
            i += 1;
            continue;
        }
        match split_once_chars(&line, '=') {
            None => {
                return None;
            },
            Some((name, value)) => {
                if !same_chars(&trim_chars(&name), &k) {
                    i += 1;
                    continue;
                }
                let v = trim_chars(&strip_quotes_chars(&trim_chars(&value)));
                if v.len() == 0 || is_literal(&v, "default") {
                    return None;
                }
                return Some(string_from_chars(&v));
            },
        }
    }
    assert(lv.skip(i as int) =~= Seq::<Seq<char>>::empty());
    None
}

/// What `std::path::Path::parent` gives: the path without its final
/// component, or nothing for a root or an empty path. Which characters
/// separate components is the platform's the library is built for.
pub uninterp spec fn std_parent(p: Seq<char>) -> Option<Seq<char>>;

/// Calls `std::path::Path::parent`. Trusted: the result is exactly the
/// named `std_parent` of the argument; nothing more is claimed of it.
#[verifier::external_body]
pub(crate) fn parent(p: &str) -> (r: Option<String>)
    ensures
        match r {
            None => std_parent(p@) is None,
            Some(d) => std_parent(p@) == Some(d@),
        },
{
    std::path::Path::new(p).parent().map(|d| d.to_string_lossy().into_owned())
}

/// A path out of RetroArch's configuration with its shorthands expanded,
/// given RetroArch's own directory: a leading `:/` or `:\` is that
/// directory, a leading `~/` is home.
pub open spec fn config_path_in_spec(raw: Seq<char>, dir: Option<Seq<char>>, home: Option<Seq<char>>) -> Option<
    Seq<char>,
> {
    let r = trim(raw);
    if r.len() >= 2 && r[0] == ':' && (r[1] == '\\' || r[1] == '/') {
        match dir {
            None => None,
            Some(d) => Some(push(d, r.skip(2))),
        }
    } else if r.len() >= 2 && r[0] == '~' && r[1] == '/' {
        match home {
            None => None,
            Some(h) => Some(push(h, r.skip(2))),
        }
    } else if r.len() == 0 {
        None
    } else {
        Some(r)
    }
}

/// A path out of RetroArch's configuration with its shorthands expanded,
/// RetroArch's directory being the parent of its binary.
pub open spec fn config_path_spec(raw: Seq<char>, retroarch: Seq<char>, home: Option<Seq<char>>) -> Option<
    Seq<char>,
> {
    config_path_in_spec(raw, std_parent(retroarch), home)
}

pub fn config_path_in(raw: &str, dir: Option<&str>, home: Option<&str>) -> (r: Option<String>)
    ensures
        opt_view(r) == config_path_in_spec(raw@, opt_str(dir), opt_str(home)),
{
    let r = trim_chars(&chars_of(raw));
    if r.len() >= 2 && r[0] == ':' && (r[1] == '\\' || r[1] == '/') {
        let rest = slice_chars(&r, 2, r.len());
        assert(rest@ =~= r@.skip(2));
        match dir {
            None => None,
            Some(d) => Some(string_from_chars(&crate::path::push_chars_path(&chars_of(d), &rest))),
        }
    } else if r.len() >= 2 && r[0] == '~' && r[1] == '/' {
        let rest = slice_chars(&r, 2, r.len());
        assert(rest@ =~= r@.skip(2));
        match home {
            None => None,
            Some(h) => Some(string_from_chars(&crate::path::push_chars_path(&chars_of(h), &rest))),
        }
    } else if r.len() == 0 {
        None
    } else {
        Some(string_from_chars(&r))
    }
}

pub fn config_path(raw: &str, retroarch: &str, home: Option<&str>) -> (r: Option<String>)
    ensures
        opt_view(r) == config_path_spec(raw@, retroarch@, opt_str(home)),
{
    match parent(retroarch) {
        Some(d) => config_path_in(raw, Some(d.as_str()), home),
        None => config_path_in(raw, None, home),
    }
}

/// The characters up to the first whitespace.
pub open spec fn until_ws(s: Seq<char>) -> Seq<char>
    decreases s.len(),
{
    if s.len() == 0 || is_ws(s[0]) {
        Seq::<char>::empty()
    } else {
        seq![s[0]] + until_ws(s.drop_first())
    }
}

/// The program an `Exec=` value names: the quoted part when it starts with
/// a quote, otherwise its first whitespace-separated word.
pub open spec fn exec_program(value: Seq<char>) -> Seq<char> {
    let t = trim(value);
    if t.len() > 0 && t[0] == '"' {
        split(t.skip(1), '"')[0]
    } else {
        until_ws(trim_start(value))
    }
}

/// Whether a path is absolute on a `/`-rooted system.
pub open spec fn absolute(p: Seq<char>) -> bool {
    p.len() > 0 && p[0] == '/'
}

/// Whether a path's own file name says it is RetroArch.
pub open spec fn names_retroarch_spec(p: Seq<char>) -> bool {
    match std_file_name(p) {
        None => false,
        Some(n) => contains_seq(lower_seq(n), "retroarch"@),
    }
}

pub fn names_retroarch(path: &str) -> (r: bool)
    ensures
        r == names_retroarch_spec(path@),
{
    match file_name(path) {
        None => false,
        Some(n) => contains_literal(&lower_chars(&chars_of(n.as_str())), "retroarch"),
    }
}

/// The RetroArch programs a desktop entry's `Exec=` lines name: absolute,
/// and named for what they are.
pub open spec fn exec_paths_spec(ls: Seq<Seq<char>>) -> Seq<Seq<char>>
    decreases ls.len(),
{
    if ls.len() == 0 {
        Seq::<Seq<char>>::empty()
    } else {
        let rest = exec_paths_spec(ls.drop_last());
        let l = trim(ls.last());
        if "Exec="@.len() <= l.len() && l.take(5) == "Exec="@ {
            let program = exec_program(l.skip(5));
            if absolute(program) && names_retroarch_spec(program) {
                rest.push(program)
            } else {
                rest
            }
        } else {
            rest
        }
    }
}

fn until_ws_chars(s: &[char]) -> (r: Vec<char>)
    ensures
        r@ == until_ws(s@),
{
    let mut i: usize = 0;
    assert(s@.skip(0) =~= s@);
    assert(s@.take(0) + until_ws(s@.skip(0)) =~= until_ws(s@));
    while i < s.len() && !is_ws_char(s[i])
        invariant
            i <= s@.len(),
            until_ws(s@) == s@.take(i as int) + until_ws(s@.skip(i as int)),
        decreases s@.len() - i,
    {
        assert(s@.skip(i as int).drop_first() =~= s@.skip(i + 1));
        assert(s@.take(i + 1) =~= s@.take(i as int) + seq![s@[i as int]]);
        i += 1;
        assert(until_ws(s@) =~= s@.take(i as int) + until_ws(s@.skip(i as int)));
    }
    assert(until_ws(s@.skip(i as int)) =~= Seq::<char>::empty());
    let r = slice_chars(s, 0, i);
    assert(r@ =~= s@.take(i as int) + until_ws(s@.skip(i as int)));
    r
}

fn exec_program_chars(value: &[char]) -> (r: Vec<char>)
    ensures
        r@ == exec_program(value@),
{
    let t = trim_chars(value);
    if t.len() > 0 && t[0] == '"' {
        let rest = slice_chars(&t, 1, t.len());
        assert(rest@ =~= t@.skip(1));
        let parts = split_chars(&rest, '"');
        proof {
            lemma_split_nonempty(rest@, '"');
        }
        assert(views(parts@)[0] == parts@[0]@);
        slice_chars(&parts[0], 0, parts[0].len())
    } else {
        until_ws_chars(&trim_start_chars(value))
    }
}

pub fn exec_paths(desktop_entry: &str) -> (r: Vec<String>)
    ensures
        r@.map_values(|s: String| s@) == exec_paths_spec(lines(desktop_entry@)),
{
    let ls = lines_chars(&chars_of(desktop_entry));
    let ghost lv = lines(desktop_entry@);
    let mut out: Vec<String> = Vec::new();
    let mut i: usize = 0;
    let prefix = chars_of("Exec=");
    assert(lv.take(0) =~= Seq::<Seq<char>>::empty());
    assert(out@.map_values(|s: String| s@) =~= Seq::<Seq<char>>::empty());
    while i < ls.len()
        invariant
            i <= ls@.len(),
            views(ls@) == lv,
            prefix@ == "Exec="@,
            out@.map_values(|s: String| s@) == exec_paths_spec(lv.take(i as int)),
        decreases ls@.len() - i,
    {
        assert(lv[i as int] == ls@[i as int]@);
        assert(lv.take(i + 1).drop_last() =~= lv.take(i as int));
        let l = trim_chars(&ls[i]);
        proof {
            reveal_strlit("Exec=");
        }
        if starts_with_chars(&l, &prefix) {
            let value = slice_chars(&l, 5, l.len());
            assert(value@ =~= l@.skip(5));
            let program = exec_program_chars(&value);
            let ps = string_from_chars(&program);
            if program.len() > 0 && program[0] == '/' && names_retroarch(ps.as_str()) {
                let ghost before = out@.map_values(|s: String| s@);
                out.push(ps);
                assert(out@.map_values(|s: String| s@) =~= before.push(program@));
            }
        }
        i += 1;
    }
    assert(lv.take(ls@.len() as int) =~= lv);
    out
}

/// `v` without repeats, keeping the first of each in its place.
pub open spec fn dedup_spec(v: Seq<Seq<char>>) -> Seq<Seq<char>>
    decreases v.len(),
{
    if v.len() == 0 {
        v
    } else {
        let r = dedup_spec(v.drop_last());
        if v.drop_last().contains(v.last()) {
            r
        } else {
            r.push(v.last())
        }
    }
}

fn contains_string(v: &Vec<String>, s: &String) -> (r: bool)
    ensures
        r == v@.map_values(|x: String| x@).contains(s@),
{
    let sc = chars_of(s.as_str());
    let mut i: usize = 0;
    while i < v.len()
        invariant
            i <= v@.len(),
            sc@ == s@,
            forall|j: int| 0 <= j < i ==> v@[j]@ != s@,
        decreases v@.len() - i,
    {
        if crate::dat::is_literal_string(&sc, &v[i]) {
            assert(v@.map_values(|x: String| x@)[i as int] == s@);
            return true;
        }
        i += 1;
    }
    let ghost m = v@.map_values(|x: String| x@);
    assert forall|j: int| 0 <= j < m.len() implies m[j] != s@ by {
        assert(v@[j]@ != s@);
    }
    false
}

/// Deduplication loses no path: what was in the list is in what is left.
pub proof fn lemma_dedup_contains(v: Seq<Seq<char>>, x: Seq<char>)
    ensures
        dedup_spec(v).contains(x) == v.contains(x),
    decreases v.len(),
{
    if v.len() > 0 {
        let d = v.drop_last();
        lemma_dedup_contains(d, x);
        let r = dedup_spec(d);
        assert(v =~= d.push(v.last()));
        assert(v.contains(x) == (d.contains(x) || v.last() == x)) by {
            if v.contains(x) {
                let i = choose|i: int| 0 <= i < v.len() && v[i] == x;
                if i < v.len() - 1 {
                    assert(d[i] == x);
                }
            }
            if d.contains(x) {
                let i = choose|i: int| 0 <= i < d.len() && d[i] == x;
                assert(v[i] == x);
            }
            if v.last() == x {
                assert(v[v.len() - 1] == x);
            }
        }
        if d.contains(v.last()) {
            assert(dedup_spec(v) == r);
        } else {
            assert(dedup_spec(v) == r.push(v.last()));
            assert(r.push(v.last()).contains(x) == (r.contains(x) || v.last() == x)) by {
                let q = r.push(v.last());
                if q.contains(x) {
                    let i = choose|i: int| 0 <= i < q.len() && q[i] == x;
                    if i < r.len() {
                        assert(r[i] == x);
                    }
                }
                if r.contains(x) {
                    let i = choose|i: int| 0 <= i < r.len() && r[i] == x;
                    assert(q[i] == x);
                }
                if v.last() == x {
                    assert(q[r.len() as int] == x);
                }
            }
        }
    }
}

/// Repeats dropped, first occurrences kept in order: the order of a search
/// list is its priority.
pub fn dedup_keeping_order(paths: &mut Vec<String>)
    ensures
        final(paths)@.map_values(|s: String| s@) == dedup_spec(old(paths)@.map_values(|s: String| s@)),
{
    let ghost v = paths@.map_values(|s: String| s@);
    let mut out: Vec<String> = Vec::new();
    let mut i: usize = 0;
    assert(v.take(0) =~= Seq::<Seq<char>>::empty());
    assert(out@.map_values(|s: String| s@) =~= Seq::<Seq<char>>::empty());
    while i < paths.len()
        invariant
            i <= paths@.len(),
            v == paths@.map_values(|s: String| s@),
            v == old(paths)@.map_values(|s: String| s@),
            out@.map_values(|s: String| s@) == dedup_spec(v.take(i as int)),
        decreases paths@.len() - i,
    {
        let p = paths[i].clone();
        assert(v[i as int] == p@);
        assert(v.take(i + 1).drop_last() =~= v.take(i as int));
        proof {
            lemma_dedup_contains(v.take(i as int), p@);
        }
        if !contains_string(&out, &p) {
            let ghost before = out@.map_values(|s: String| s@);
            out.push(p);
            assert(out@.map_values(|s: String| s@) =~= before.push(v[i as int]));
        }
        i += 1;
    }
    assert(v.take(paths@.len() as int) =~= v);
    *paths = out;
}

/// `home/suffix`, when there is a home.
pub fn under(home: Option<&str>, suffix: &str) -> (r: Option<String>)
    ensures
        match home {
            None => r is None,
            Some(h) => r matches Some(p) && p@ == push(h@, suffix@),
        },
{
    match home {
        None => None,
        Some(h) => Some(join(h, suffix)),
    }
}

/// `RETROARCH`, if it is set to anything.
pub fn explicit_override(raw: Option<String>) -> (r: Option<String>)
    ensures
        match raw {
            None => r is None,
            Some(v) => if v@.len() == 0 {
                r is None
            } else {
                r == Some(v)
            },
        },
{
    match raw {
        None => None,
        Some(v) => if v.as_str().is_empty() {
            None
        } else {
            Some(v)
        },
    }
}


/// A path made of `dir` and `name`, added to the end of a list.
pub(crate) fn push_joined(out: &mut Vec<String>, dir: &str, name: &str)
    ensures
        strings(final(out)@) == strings(old(out)@).push(push(dir@, name@)),
{
    let p = join(dir, name);
    let ghost before = out@;
    out.push(p);
    assert(strings(out@) =~= strings(before).push(push(dir@, name@)));
}

/// A fixed path added to the end of a list.
pub(crate) fn push_owned(out: &mut Vec<String>, p: &str)
    ensures
        strings(final(out)@) == strings(old(out)@).push(p@),
{
    let ghost before = out@;
    out.push(p.to_owned());
    assert(strings(out@) =~= strings(before).push(p@));
}

/// A path added to the end of a list when there is one.
fn push_some(out: &mut Vec<String>, p: Option<String>)
    ensures
        strings(final(out)@) == strings(old(out)@) + opt_path(opt_view(p)),
{
    let ghost before = out@;
    match p {
        Some(v) => {
            out.push(v);
            assert(strings(out@) =~= strings(before) + opt_path(opt_view(Some(v))));
        },
        None => {
            assert(strings(out@) =~= strings(before) + opt_path(opt_view(None::<String>)));
        },
    }
}

/// The view of an optional string.
pub open spec fn opt_view(p: Option<String>) -> Option<Seq<char>> {
    match p {
        Some(v) => Some(v@),
        None => None,
    }
}

/// The view of an optional string slice.
pub open spec fn opt_str(p: Option<&str>) -> Option<Seq<char>> {
    match p {
        Some(v) => Some(v@),
        None => None,
    }
}

/// A path that may be missing, as a list of none or one.
pub open spec fn opt_path(p: Option<Seq<char>>) -> Seq<Seq<char>> {
    match p {
        Some(v) => seq![v],
        None => Seq::<Seq<char>>::empty(),
    }
}

/// `home/suffix` when there is a home.
pub open spec fn under_spec(home: Option<Seq<char>>, suffix: Seq<char>) -> Option<Seq<char>> {
    match home {
        Some(h) => Some(push(h, suffix)),
        None => None,
    }
}

/// The directories RetroArch's installers use for its own files, from the
/// home, configuration and data directories where there are any.
pub open spec fn install_roots_spec(
    home: Option<Seq<char>>,
    config: Option<Seq<char>>,
    data: Option<Seq<char>>,
) -> Seq<Seq<char>> {
    let h = match home {
        Some(h) => seq![
            push(h, ".config/retroarch"@),
            push(h, ".var/app/org.libretro.RetroArch/config/retroarch"@),
            push(h, "snap/retroarch/current/.config/retroarch"@),
            push(h, "Library/Application Support/RetroArch"@),
        ],
        None => Seq::<Seq<char>>::empty(),
    };
    h + opt_path(under_spec(config, "retroarch"@)) + opt_path(under_spec(data, "RetroArch"@))
}

pub fn install_roots(home: Option<&str>, config: Option<&str>, data: Option<&str>) -> (r: Vec<String>)
    ensures
        strings(r@) == install_roots_spec(opt_str(home), opt_str(config), opt_str(data)),
{
    let mut roots: Vec<String> = Vec::new();
    if let Some(h) = home {
        push_joined(&mut roots, h, ".config/retroarch");
        push_joined(&mut roots, h, ".var/app/org.libretro.RetroArch/config/retroarch");
        push_joined(&mut roots, h, "snap/retroarch/current/.config/retroarch");
        push_joined(&mut roots, h, "Library/Application Support/RetroArch");
    }
    push_some(&mut roots, under(config, "retroarch"));
    push_some(&mut roots, under(data, "RetroArch"));
    assert(strings(roots@) =~= install_roots_spec(opt_str(home), opt_str(config), opt_str(data)));
    roots
}

/// Each directory of a list with one name joined on.
pub open spec fn each_joined(dirs: Seq<Seq<char>>, name: Seq<char>) -> Seq<Seq<char>> {
    dirs.map_values(|d: Seq<char>| push(d, name))
}

fn push_each_joined(out: &mut Vec<String>, dirs: &Vec<String>, name: &str)
    ensures
        strings(final(out)@) == strings(old(out)@) + each_joined(strings(dirs@), name@),
{
    let ghost start = strings(out@);
    let mut i: usize = 0;
    while i < dirs.len()
        invariant
            i <= dirs@.len(),
            strings(out@) == start + each_joined(strings(dirs@), name@).take(i as int),
        decreases dirs@.len() - i,
    {
        push_joined(out, dirs[i].as_str(), name);
        i += 1;
        assert(strings(out@) =~= start + each_joined(strings(dirs@), name@).take(i as int));
    }
    assert(each_joined(strings(dirs@), name@).take(i as int) =~= each_joined(strings(dirs@), name@));
}

/// Where RetroArch's own configuration file may be, in the order it is
/// looked for, given the binary's directory: beside the binary, then in
/// each install root.
pub open spec fn user_config_in_spec(dir: Option<Seq<char>>, roots: Seq<Seq<char>>) -> Seq<Seq<char>> {
    opt_path(
        match dir {
            Some(d) => Some(push(d, "retroarch.cfg"@)),
            None => None,
        },
    ) + each_joined(roots, "retroarch.cfg"@)
}

/// Where RetroArch's own configuration file may be, for a binary.
pub open spec fn user_config_spec(retroarch: Seq<char>, roots: Seq<Seq<char>>) -> Seq<Seq<char>> {
    user_config_in_spec(std_parent(retroarch), roots)
}

pub fn user_config_candidates_in(dir: Option<&str>, roots: &Vec<String>) -> (r: Vec<String>)
    ensures
        strings(r@) == user_config_in_spec(opt_str(dir), strings(roots@)),
{
    let mut out: Vec<String> = Vec::new();
    match dir {
        Some(d) => push_joined(&mut out, d, "retroarch.cfg"),
        None => {},
    }
    push_each_joined(&mut out, roots, "retroarch.cfg");
    assert(strings(out@) =~= user_config_in_spec(opt_str(dir), strings(roots@)));
    out
}

pub fn user_config_candidates(retroarch: &str, roots: &Vec<String>) -> (r: Vec<String>)
    ensures
        strings(r@) == user_config_spec(retroarch@, strings(roots@)),
{
    match parent(retroarch) {
        Some(d) => user_config_candidates_in(Some(d.as_str()), roots),
        None => user_config_candidates_in(None, roots),
    }
}

/// The first candidate that the probe found present.
pub open spec fn first_present(c: Seq<Seq<char>>, present: Seq<bool>) -> Option<Seq<char>>
    decreases c.len(),
{
    if c.len() == 0 || present.len() == 0 {
        None
    } else if present[0] {
        Some(c[0])
    } else {
        first_present(c.drop_first(), present.drop_first())
    }
}

/// The first of `candidates` whose entry in `present` is true.
pub fn first_found(candidates: &Vec<String>, present: &Vec<bool>) -> (r: Option<String>)
    ensures
        opt_view(r) == first_present(strings(candidates@), present@),
{
    let mut i: usize = 0;
    assert(strings(candidates@).skip(0) =~= strings(candidates@));
    assert(present@.skip(0) =~= present@);
    while i < candidates.len() && i < present.len()
        invariant
            i <= candidates@.len(),
            i <= present@.len(),
            first_present(strings(candidates@), present@) == first_present(
                strings(candidates@).skip(i as int),
                present@.skip(i as int),
            ),
        decreases candidates@.len() - i,
    {
        let ghost c = strings(candidates@).skip(i as int);
        let ghost q = present@.skip(i as int);
        assert(c.drop_first() =~= strings(candidates@).skip(i + 1));
        assert(q.drop_first() =~= present@.skip(i + 1));
        assert(c[0] == candidates@[i as int]@);
        if present[i] {
            return Some(candidates[i].clone());
        }
        i += 1;
    }
    assert(strings(candidates@).skip(i as int).len() == 0 || present@.skip(i as int).len() == 0);
    None
}

/// Where a RetroArch install's cores may be, in the order they are looked
/// for, given the binary's directory and that directory's parent: what its
/// configuration says, beside the binary, in a macOS bundle's resources, in
/// each install root, in the system's libretro directories, and last the
/// binary's own directory.
pub open spec fn core_dir_in_spec(
    dir: Option<Seq<char>>,
    contents: Option<Seq<char>>,
    configured: Option<Seq<char>>,
    roots: Seq<Seq<char>>,
) -> Seq<Seq<char>> {
    let beside = match dir {
        Some(d) => seq![push(d, "cores"@)] + match contents {
            Some(c) => seq![push(push(c, "Resources"@), "cores"@)],
            None => Seq::<Seq<char>>::empty(),
        },
        None => Seq::<Seq<char>>::empty(),
    };
    let own = match dir {
        Some(d) => seq![d],
        None => Seq::<Seq<char>>::empty(),
    };
    opt_path(configured) + beside + each_joined(roots, "cores"@) + seq![
        "/usr/lib/libretro"@,
        "/usr/local/lib/libretro"@,
        "/usr/lib/x86_64-linux-gnu/libretro"@,
    ] + own
}

/// The parent of a path's parent.
pub open spec fn grandparent(p: Seq<char>) -> Option<Seq<char>> {
    match std_parent(p) {
        Some(d) => std_parent(d),
        None => None,
    }
}

/// Where a RetroArch install's cores may be, for a binary.
pub open spec fn core_dir_spec(retroarch: Seq<char>, configured: Option<Seq<char>>, roots: Seq<Seq<char>>) -> Seq<
    Seq<char>,
> {
    core_dir_in_spec(std_parent(retroarch), grandparent(retroarch), configured, roots)
}

pub fn core_dir_candidates_in(
    dir: Option<&str>,
    contents: Option<&str>,
    configured: Option<String>,
    roots: &Vec<String>,
) -> (r: Vec<String>)
    ensures
        strings(r@) == core_dir_in_spec(opt_str(dir), opt_str(contents), opt_view(configured), strings(roots@)),
{
    let mut out: Vec<String> = Vec::new();
    push_some(&mut out, configured);
    match dir {
        Some(d) => {
            push_joined(&mut out, d, "cores");
            match contents {
                Some(c) => {
                    let res = join(c, "Resources");
                    push_joined(&mut out, res.as_str(), "cores");
                },
                None => {},
            }
        },
        None => {},
    }
    push_each_joined(&mut out, roots, "cores");
    push_owned(&mut out, "/usr/lib/libretro");
    push_owned(&mut out, "/usr/local/lib/libretro");
    push_owned(&mut out, "/usr/lib/x86_64-linux-gnu/libretro");
    match dir {
        Some(d) => push_owned(&mut out, d),
        None => {},
    }
    assert(strings(out@) =~= core_dir_in_spec(opt_str(dir), opt_str(contents), opt_view(configured), strings(roots@)));
    out
}

pub fn core_dir_candidates(retroarch: &str, configured: Option<String>, roots: &Vec<String>) -> (r: Vec<String>)
    ensures
        strings(r@) == core_dir_spec(retroarch@, opt_view(configured), strings(roots@)),
{
    match parent(retroarch) {
        Some(d) => match parent(d.as_str()) {
            Some(c) => core_dir_candidates_in(Some(d.as_str()), Some(c.as_str()), configured, roots),
            None => core_dir_candidates_in(Some(d.as_str()), None, configured, roots),
        },
        None => core_dir_candidates_in(None, None, configured, roots),
    }
}

/// Whether a directory's entries hold at least one libretro core.
pub fn holds_a_core(names: &Vec<String>, platform: Platform) -> (r: bool)
    ensures
        r == exists|i: int| 0 <= i < names@.len() && is_core_file_spec(#[trigger] names@[i]@, platform),
{
    let mut i: usize = 0;
    while i < names.len()
        invariant
            i <= names@.len(),
            forall|j: int| 0 <= j < i ==> !is_core_file_spec(#[trigger] names@[j]@, platform),
        decreases names@.len() - i,
    {
        if is_core_file(names[i].as_str(), platform) {
            return true;
        }
        i += 1;
    }
    false
}


/// Each name of a list joined onto one directory.
pub open spec fn under_each(dir: Seq<char>, names: Seq<Seq<char>>) -> Seq<Seq<char>> {
    names.map_values(|n: Seq<char>| push(dir, n))
}

/// Every binary name under every directory of `PATH`, directory by
/// directory.
pub open spec fn path_part(dirs: Seq<Seq<char>>, names: Seq<Seq<char>>) -> Seq<Seq<char>>
    decreases dirs.len(),
{
    if dirs.len() == 0 {
        Seq::<Seq<char>>::empty()
    } else {
        path_part(dirs.drop_last(), names) + under_each(dirs.last(), names)
    }
}

/// The three places a Windows installer puts RetroArch under each program
/// directory.
pub open spec fn program_files_part(bases: Seq<Seq<char>>) -> Seq<Seq<char>>
    decreases bases.len(),
{
    if bases.len() == 0 {
        Seq::<Seq<char>>::empty()
    } else {
        let b = bases.last();
        program_files_part(bases.drop_last()) + seq![
            push(b, "RetroArch/retroarch.exe"@),
            push(b, "RetroArch-Win64/retroarch.exe"@),
            push(b, "Programs/RetroArch/retroarch.exe"@),
        ]
    }
}

/// The places each platform's installers use.
pub open spec fn platform_part(p: Platform, home: Option<Seq<char>>, bases: Seq<Seq<char>>) -> Seq<Seq<char>> {
    match p {
        Platform::Windows => program_files_part(bases) + opt_path(
            under_spec(home, "scoop/apps/retroarch/current/retroarch.exe"@),
        ) + seq!["C:/RetroArch-Win64/retroarch.exe"@, "C:/RetroArch/retroarch.exe"@],
        Platform::MacOs => seq!["/Applications/RetroArch.app/Contents/MacOS/RetroArch"@] + opt_path(
            under_spec(home, "Applications/RetroArch.app/Contents/MacOS/RetroArch"@),
        ) + seq!["/opt/homebrew/bin/retroarch"@, "/usr/local/bin/retroarch"@],
        Platform::Linux => seq![
            "/usr/bin/retroarch"@,
            "/usr/local/bin/retroarch"@,
            "/usr/games/retroarch"@,
            "/snap/bin/retroarch"@,
            "/var/lib/flatpak/exports/bin/org.libretro.RetroArch"@,
        ] + opt_path(under_spec(home, ".local/share/flatpak/exports/bin/org.libretro.RetroArch"@)) + opt_path(
            under_spec(home, ".local/bin/retroarch"@),
        ) + seq!["/opt/retroarch/retroarch"@, "/opt/RetroArch/retroarch"@],
    }
}

/// Every place RetroArch is looked for, in order: each `PATH` directory,
/// then the installers' places, then what desktop entries name; repeats
/// dropped, first occurrences kept.
pub open spec fn candidates_spec(
    p: Platform,
    path_dirs: Seq<Seq<char>>,
    home: Option<Seq<char>>,
    bases: Seq<Seq<char>>,
    desktop: Seq<Seq<char>>,
) -> Seq<Seq<char>> {
    dedup_spec(path_part(path_dirs, binary_names_spec(p)) + platform_part(p, home, bases) + desktop)
}

/// No path occurs twice.
pub open spec fn no_repeats(v: Seq<Seq<char>>) -> bool {
    forall|i: int, j: int| 0 <= i < j < v.len() ==> v[i] != v[j]
}

/// What deduplication leaves has no repeats.
pub proof fn lemma_dedup_no_repeats(v: Seq<Seq<char>>)
    ensures
        no_repeats(dedup_spec(v)),
    decreases v.len(),
{
    if v.len() > 0 {
        let d = v.drop_last();
        lemma_dedup_no_repeats(d);
        lemma_dedup_contains(d, v.last());
        let r = dedup_spec(d);
        if !d.contains(v.last()) {
            let q = r.push(v.last());
            assert forall|i: int, j: int| 0 <= i < j < q.len() implies q[i] != q[j] by {
                if j == r.len() {
                    if q[i] == q[j] {
                        assert(r[i] == v.last());
                        assert(r.contains(v.last()));
                    }
                } else {
                    assert(q[i] == r[i] && q[j] == r[j]);
                }
            }
        }
    }
}

fn push_under_each(out: &mut Vec<String>, dir: &str, names: &Vec<&'static str>)
    ensures
        strings(final(out)@) == strings(old(out)@) + under_each(dir@, crate::system::strs(names@)),
{
    let ghost start = strings(out@);
    let ghost all = under_each(dir@, crate::system::strs(names@));
    let mut i: usize = 0;
    while i < names.len()
        invariant
            i <= names@.len(),
            all == under_each(dir@, crate::system::strs(names@)),
            strings(out@) == start + all.take(i as int),
        decreases names@.len() - i,
    {
        push_joined(out, dir, names[i]);
        i += 1;
        assert(strings(out@) =~= start + all.take(i as int));
    }
    assert(all.take(i as int) =~= all);
}

/// Every place Den looks for RetroArch, given what the environment holds:
/// the directories of `PATH`, the home directory, the program directories
/// a Windows environment names, and the programs desktop entries name.
pub fn candidates(
    platform: Platform,
    path_dirs: &Vec<String>,
    home: Option<&str>,
    program_bases: &Vec<String>,
    desktop: &Vec<String>,
) -> (r: Vec<String>)
    ensures
        strings(r@) == candidates_spec(
            platform,
            strings(path_dirs@),
            opt_str(home),
            strings(program_bases@),
            strings(desktop@),
        ),
        no_repeats(strings(r@)),
{
    let names = binary_names(platform);
    let ghost ns = crate::system::strs(names@);
    assert(ns == binary_names_spec(platform));
    let mut out: Vec<String> = Vec::new();
    let mut i: usize = 0;
    while i < path_dirs.len()
        invariant
            i <= path_dirs@.len(),
            ns == crate::system::strs(names@),
            strings(out@) == path_part(strings(path_dirs@).take(i as int), ns),
        decreases path_dirs@.len() - i,
    {
        let ghost before = strings(path_dirs@).take(i as int);
        push_under_each(&mut out, path_dirs[i].as_str(), &names);
        i += 1;
        assert(strings(path_dirs@).take(i as int).drop_last() =~= before);
    }
    assert(strings(path_dirs@).take(i as int) =~= strings(path_dirs@));
    let ghost a = strings(out@);
    match platform {
        Platform::Windows => {
            let mut k: usize = 0;
            while k < program_bases.len()
                invariant
                    k <= program_bases@.len(),
                    strings(out@) == a + program_files_part(strings(program_bases@).take(k as int)),
                decreases program_bases@.len() - k,
            {
                let ghost before = strings(program_bases@).take(k as int);
                let b = program_bases[k].as_str();
                push_joined(&mut out, b, "RetroArch/retroarch.exe");
                push_joined(&mut out, b, "RetroArch-Win64/retroarch.exe");
                push_joined(&mut out, b, "Programs/RetroArch/retroarch.exe");
                k += 1;
                assert(strings(program_bases@).take(k as int).drop_last() =~= before);
                assert(strings(out@) =~= a + program_files_part(strings(program_bases@).take(k as int)));
            }
            assert(strings(program_bases@).take(k as int) =~= strings(program_bases@));
            push_some(&mut out, under(home, "scoop/apps/retroarch/current/retroarch.exe"));
            push_owned(&mut out, "C:/RetroArch-Win64/retroarch.exe");
            push_owned(&mut out, "C:/RetroArch/retroarch.exe");
        },
        Platform::MacOs => {
            push_owned(&mut out, "/Applications/RetroArch.app/Contents/MacOS/RetroArch");
            push_some(&mut out, under(home, "Applications/RetroArch.app/Contents/MacOS/RetroArch"));
            push_owned(&mut out, "/opt/homebrew/bin/retroarch");
            push_owned(&mut out, "/usr/local/bin/retroarch");
        },
        Platform::Linux => {
            push_owned(&mut out, "/usr/bin/retroarch");
            push_owned(&mut out, "/usr/local/bin/retroarch");
            push_owned(&mut out, "/usr/games/retroarch");
            push_owned(&mut out, "/snap/bin/retroarch");
            push_owned(&mut out, "/var/lib/flatpak/exports/bin/org.libretro.RetroArch");
            push_some(&mut out, under(home, ".local/share/flatpak/exports/bin/org.libretro.RetroArch"));
            push_some(&mut out, under(home, ".local/bin/retroarch"));
            push_owned(&mut out, "/opt/retroarch/retroarch");
            push_owned(&mut out, "/opt/RetroArch/retroarch");
        },
    }
    assert(strings(out@) =~= a + platform_part(platform, opt_str(home), strings(program_bases@)));
    let ghost b = strings(out@);
    let mut j: usize = 0;
    while j < desktop.len()
        invariant
            j <= desktop@.len(),
            strings(out@) == b + strings(desktop@).take(j as int),
        decreases desktop@.len() - j,
    {
        push_owned(&mut out, desktop[j].as_str());
        j += 1;
        assert(strings(out@) =~= b + strings(desktop@).take(j as int));
    }
    assert(strings(desktop@).take(j as int) =~= strings(desktop@));
    dedup_keeping_order(&mut out);
    proof {
        lemma_dedup_no_repeats(
            path_part(strings(path_dirs@), ns) + platform_part(platform, opt_str(home), strings(program_bases@))
                + strings(desktop@),
        );
    }
    out
}


/// The paths of a list that are not empty, in order.
pub open spec fn non_empty(v: Seq<Seq<char>>) -> Seq<Seq<char>>
    decreases v.len(),
{
    if v.len() == 0 {
        v
    } else {
        let r = non_empty(v.drop_last());
        if v.last().len() > 0 {
            r.push(v.last())
        } else {
            r
        }
    }
}

fn retain_non_empty(v: Vec<String>) -> (r: Vec<String>)
    ensures
        strings(r@) == non_empty(strings(v@)),
{
    let mut out: Vec<String> = Vec::new();
    let mut i: usize = 0;
    let ghost w = strings(v@);
    assert(w.take(0) =~= Seq::<Seq<char>>::empty());
    while i < v.len()
        invariant
            i <= v@.len(),
            w == strings(v@),
            strings(out@) == non_empty(w.take(i as int)),
        decreases v@.len() - i,
    {
        let ghost before = w.take(i as int);
        assert(w.take(i + 1).drop_last() =~= before);
        if !v[i].as_str().is_empty() {
            let c = v[i].clone();
            let ghost o = out@;
            out.push(c);
            assert(strings(out@) =~= strings(o).push(w[i as int]));
        }
        i += 1;
    }
    assert(w.take(i as int) =~= w);
    out
}

/// The places a RetroArch shipped with Den may be under the shell's
/// resource directory: its `runtime`, its `resources/runtime`, and the
/// directory itself, each with and without `retroarch`.
pub open spec fn bundled_part(dir: Seq<char>) -> Seq<Seq<char>> {
    let a = push(dir, "runtime"@);
    let b = push(dir, "resources/runtime"@);
    seq![push(a, "retroarch"@), a, push(b, "retroarch"@), b, push(dir, "retroarch"@), dir]
}

/// The places beside the running executable, given its directory and that
/// directory's parent, the last being a macOS bundle's `Contents`.
pub open spec fn exe_part_in(dir: Option<Seq<char>>, contents: Option<Seq<char>>) -> Seq<Seq<char>> {
    match dir {
        Some(d) => seq![push(d, "runtime/retroarch"@), push(d, "runtime"@)] + match contents {
            Some(c) => seq![push(c, "Resources/runtime/retroarch"@), push(c, "Resources/runtime"@)],
            None => Seq::<Seq<char>>::empty(),
        },
        None => Seq::<Seq<char>>::empty(),
    }
}

/// The directories that may hold a RetroArch shipped with Den or installed
/// by it, in order: the shell's resources, `DEN_RUNTIME_DIR`, beside the
/// executable (given its directory and that directory's parent), the
/// managed directory; empty paths and repeats dropped.
pub open spec fn runtime_dirs_in_spec(
    bundled: Option<Seq<char>>,
    env_dir: Option<Seq<char>>,
    exe_dir: Option<Seq<char>>,
    exe_contents: Option<Seq<char>>,
    managed: Seq<char>,
) -> Seq<Seq<char>> {
    let b = match bundled {
        Some(d) => bundled_part(d),
        None => Seq::<Seq<char>>::empty(),
    };
    let e = match env_dir {
        Some(d) => seq![push(d, "retroarch"@), d],
        None => Seq::<Seq<char>>::empty(),
    };
    dedup_spec(non_empty(b + e + exe_part_in(exe_dir, exe_contents) + seq![push(managed, "retroarch"@), managed]))
}

/// The runtime directories, for the running executable's path.
pub open spec fn runtime_dirs_spec(
    bundled: Option<Seq<char>>,
    env_dir: Option<Seq<char>>,
    exe: Option<Seq<char>>,
    managed: Seq<char>,
) -> Seq<Seq<char>> {
    match exe {
        Some(p) => runtime_dirs_in_spec(bundled, env_dir, std_parent(p), grandparent(p), managed),
        None => runtime_dirs_in_spec(bundled, env_dir, None, None, managed),
    }
}

pub fn runtime_dirs_in(
    bundled: Option<&str>,
    env_dir: Option<&str>,
    exe_dir: Option<&str>,
    exe_contents: Option<&str>,
    managed: &str,
) -> (r: Vec<String>)
    ensures
        strings(r@) == runtime_dirs_in_spec(
            opt_str(bundled),
            opt_str(env_dir),
            opt_str(exe_dir),
            opt_str(exe_contents),
            managed@,
        ),
        no_repeats(strings(r@)),
{
    let mut out: Vec<String> = Vec::new();
    if let Some(dir) = bundled {
        let a = join(dir, "runtime");
        let b = join(dir, "resources/runtime");
        push_joined(&mut out, a.as_str(), "retroarch");
        push_owned(&mut out, a.as_str());
        push_joined(&mut out, b.as_str(), "retroarch");
        push_owned(&mut out, b.as_str());
        push_joined(&mut out, dir, "retroarch");
        push_owned(&mut out, dir);
    }
    if let Some(dir) = env_dir {
        push_joined(&mut out, dir, "retroarch");
        push_owned(&mut out, dir);
    }
    if let Some(d) = exe_dir {
        push_joined(&mut out, d, "runtime/retroarch");
        push_joined(&mut out, d, "runtime");
        if let Some(c) = exe_contents {
            push_joined(&mut out, c, "Resources/runtime/retroarch");
            push_joined(&mut out, c, "Resources/runtime");
        }
    }
    push_joined(&mut out, managed, "retroarch");
    push_owned(&mut out, managed);
    let ghost raw = strings(out@);
    assert(raw =~= (match opt_str(bundled) {
        Some(d) => bundled_part(d),
        None => Seq::<Seq<char>>::empty(),
    }) + (match opt_str(env_dir) {
        Some(d) => seq![push(d, "retroarch"@), d],
        None => Seq::<Seq<char>>::empty(),
    }) + exe_part_in(opt_str(exe_dir), opt_str(exe_contents)) + seq![push(managed@, "retroarch"@), managed@]);
    let mut kept = retain_non_empty(out);
    dedup_keeping_order(&mut kept);
    proof {
        lemma_dedup_no_repeats(non_empty(raw));
    }
    kept
}

pub fn runtime_dirs(bundled: Option<&str>, env_dir: Option<&str>, exe: Option<&str>, managed: &str) -> (r: Vec<
    String,
>)
    ensures
        strings(r@) == runtime_dirs_spec(opt_str(bundled), opt_str(env_dir), opt_str(exe), managed@),
        no_repeats(strings(r@)),
{
    match exe {
        Some(p) => match parent(p) {
            Some(d) => match parent(d.as_str()) {
                Some(c) => runtime_dirs_in(bundled, env_dir, Some(d.as_str()), Some(c.as_str()), managed),
                None => runtime_dirs_in(bundled, env_dir, Some(d.as_str()), None, managed),
            },
            None => runtime_dirs_in(bundled, env_dir, None, None, managed),
        },
        None => runtime_dirs_in(bundled, env_dir, None, None, managed),
    }
}

/// Why a path is not something Den can run, given what a look at it found.
pub open spec fn why_not_spec(exists: bool, is_dir: bool, executable: bool) -> Seq<char> {
    if !exists {
        "is not there any more"@
    } else if is_dir {
        "is a directory, not a program"@
    } else if !executable {
        "is not marked executable"@
    } else {
        "cannot be run"@
    }
}

pub fn why_not(exists: bool, is_dir: bool, executable: bool) -> (r: &'static str)
    ensures
        r@ == why_not_spec(exists, is_dir, executable),
{
    if !exists {
        "is not there any more"
    } else if is_dir {
        "is a directory, not a program"
    } else if !executable {
        "is not marked executable"
    } else {
        "cannot be run"
    }
}

/// A path made absolute against the working directory, without resolving
/// anything along the way.
pub open spec fn absolute_spec(p: Seq<char>, cwd: Option<Seq<char>>) -> Seq<char> {
    if absolute(p) {
        p
    } else {
        match cwd {
            Some(c) => push(c, p),
            None => p,
        }
    }
}

pub fn absolute_path(p: &str, cwd: Option<&str>) -> (r: String)
    ensures
        r@ == absolute_spec(p@, opt_str(cwd)),
{
    let c = chars_of(p);
    if c.len() > 0 && c[0] == '/' {
        return p.to_owned();
    }
    match cwd {
        Some(d) => join(d, p),
        None => p.to_owned(),
    }
}

/// `path`, absolute, when it is a file this process may execute.
pub fn runnable(path: &str, is_file: bool, executable: bool, cwd: Option<&str>) -> (r: Option<String>)
    ensures
        match r {
            None => !is_file || !executable,
            Some(a) => is_file && executable && a@ == absolute_spec(path@, opt_str(cwd)),
        },
{
    if !is_file || !executable {
        return None;
    }
    Some(absolute_path(path, cwd))
}

/// The program a macOS application bundle is expected to hold:
/// `<bundle>/Contents/MacOS/<the bundle's stem>`.
pub open spec fn bundle_program_spec(p: Seq<char>) -> Option<Seq<char>> {
    if crate::path::extension(p) == Some("app"@) {
        match crate::path::file_stem(p) {
            Some(stem) => Some(push(push(push(p, "Contents"@), "MacOS"@), stem)),
            None => None,
        }
    } else {
        None
    }
}

pub fn bundle_program(path: &str) -> (r: Option<String>)
    ensures
        opt_view(r) == bundle_program_spec(path@),
{
    let is_app = match crate::path::extension_of(path) {
        Some(e) => is_literal(&e, "app"),
        None => false,
    };
    if !is_app {
        return None;
    }
    match crate::path::file_stem_of(path) {
        Some(stem) => {
            let a = join(path, "Contents");
            let b = join(a.as_str(), "MacOS");
            let st = string_from_chars(&stem);
            Some(join(b.as_str(), st.as_str()))
        },
        None => None,
    }
}

/// The directory of a bundle's programs: `<bundle>/Contents/MacOS`.
pub fn bundle_programs_dir(path: &str) -> (r: String)
    ensures
        r@ == push(push(path@, "Contents"@), "MacOS"@),
{
    let a = join(path, "Contents");
    join(a.as_str(), "MacOS")
}

/// The views of a list of string slices.
pub open spec fn strings_of_strs(v: Seq<&str>) -> Seq<Seq<char>> {
    v.map_values(|x: &str| x@)
}

} // verus!
