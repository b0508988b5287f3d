//! Who may talk to the shelf.
//!
//! Play answers to addresses, to single-label names, to the suffixes a
//! private network uses and to names it was told about; and it refuses a
//! request that changes something when a page other than its own sent it.
//! Whether a name is an IP address is read by std's address parser, which
//! the program around this library runs; the answer comes in as a flag.

use vstd::prelude::*;
use crate::text::{chars_of, contains_seq, ends_with_chars, find_char, find_chars, first_occurrence, index_of,
    is_literal, lemma_first_occurrence_bound, lemma_index_of, lemma_rindex_of, lower, lower_chars, lower_seq,
    occurs_at, push_chars, push_str, rfind_char, rindex_of, same_chars, slice_chars, split, string_from_chars,
    trim, trim_chars, views};
use crate::input::{trim_char_end};

verus! {

broadcast use vstd::string::group_string_axioms;

/// The environment variable that names more hosts Play answers to.
pub const EXTRA_HOSTS: &'static str = "DEN_WEB_HOSTS";

/// Whether every character is an ASCII digit.
pub open spec fn all_ascii_digits(s: Seq<char>) -> bool {
    forall|i: int| 0 <= i < s.len() ==> '0' <= #[trigger] s[i] && s[i] <= '9'
}

/// The host part of a `Host` header or an `Origin`, without the port: the
/// inside of a bracketed address literal, otherwise what precedes the last
/// `:` when only digits follow it and no other `:` precedes it.
pub open spec fn host_name_spec(value: Seq<char>) -> Seq<char> {
    let v = trim(value);
    if v.len() > 0 && v[0] == '[' {
        let rest = v.skip(1);
        let k = index_of(rest, ']');
        if k < 0 {
            rest
        } else {
            rest.take(k)
        }
    } else {
        let k = rindex_of(v, ':');
        if k >= 0 && !v.take(k).contains(':') && v.len() - (k + 1) > 0 && all_ascii_digits(v.skip(k + 1)) {
            v.take(k)
        } else {
            v
        }
    }
}

fn digits_only(s: &[char]) -> (r: bool)
    ensures
        r == all_ascii_digits(s@),
{
    let mut i: usize = 0;
    while i < s.len()
        invariant
            i <= s@.len(),
            forall|j: int| 0 <= j < i ==> '0' <= #[trigger] s@[j] && s@[j] <= '9',
        decreases s@.len() - i,
    {
        if !('0' <= s[i] && s[i] <= '9') {
            return false;
        }
        i += 1;
    }
    true
}

fn host_name_chars(value: &[char]) -> (r: Vec<char>)
    ensures
        r@ == host_name_spec(value@),
{
    let v = trim_chars(value);
    if v.len() > 0 && v[0] == '[' {
        let rest = slice_chars(&v, 1, v.len());
        assert(rest@ =~= v@.skip(1));
        proof {
            lemma_index_of(rest@, ']');
        }
        return match find_char(&rest, ']') {
            Some(k) => {
                let r = slice_chars(&rest, 0, k);
                assert(r@ =~= rest@.take(k as int));
                r
            },
            None => rest,
        };
    }
    proof {
        lemma_rindex_of(v@, ':');
    }
    match rfind_char(&v, ':') {
        Some(k) => {
            let name = slice_chars(&v, 0, k);
            let port = slice_chars(&v, k + 1, v.len());
            assert(name@ =~= v@.take(k as int));
            assert(port@ =~= v@.skip(k + 1));
            proof {
                lemma_index_of(name@, ':');
            }
            if find_char(&name, ':').is_none() && port.len() > 0 && digits_only(&port) {
                name
            } else {
                v
            }
        },
        None => v,
    }
}

/// The host part of a `Host` header or an `Origin`, without the port.
pub fn host_name(value: &str) -> (r: String)
    ensures
        r@ == host_name_spec(value@),
{
    string_from_chars(&host_name_chars(&chars_of(value)))
}

/// `https://host:port/...` down to `host`: the part after the first `://`
/// up to the first `/`, without its port; nothing without a `://` or with
/// nothing after it.
pub open spec fn origin_host_spec(origin: Seq<char>) -> Option<Seq<char>> {
    let k = first_occurrence(origin, "://"@);
    if k < 0 {
        None
    } else {
        let rest = origin.skip(k + 3);
        if rest.len() == 0 {
            None
        } else {
            Some(host_name_spec(split(rest, '/')[0]))
        }
    }
}

fn origin_host_chars(origin: &[char]) -> (r: Option<Vec<char>>)
    ensures
        match r {
            Some(h) => origin_host_spec(origin@) == Some(h@),
            None => origin_host_spec(origin@) is None,
        },
{
    let sep = chars_of("://");
    proof {
        lemma_first_occurrence_bound(origin@, sep@);
    }
    let olen = origin.len();
    match find_chars(origin, &sep) {
        None => None,
        Some(k) => {
            proof {
                reveal_strlit("://");
            }
            assert(sep@ == "://"@);
            assert("://"@.len() == 3);
            assert(occurs_at(origin@, k as int, sep@));
            assert(k + 3 <= origin@.len());
            let rest = slice_chars(origin, k + 3, olen);
            assert(rest@ =~= origin@.skip(k + 3));
            if rest.len() == 0 {
                return None;
            }
            let parts = crate::text::split_chars(&rest, '/');
            proof {
                crate::text::lemma_split_nonempty(rest@, '/');
            }
            assert(views(parts@)[0] == parts@[0]@);
            Some(host_name_chars(&parts[0]))
        },
    }
}

/// `https://host:port` down to `host`.
pub fn origin_host(origin: &str) -> (r: Option<String>)
    ensures
        match r {
            Some(h) => origin_host_spec(origin@) == Some(h@),
            None => origin_host_spec(origin@) is None,
        },
{
    match origin_host_chars(&chars_of(origin)) {
        Some(h) => Some(string_from_chars(&h)),
        None => None,
    }
}

/// The names `DEN_WEB_HOSTS` adds: its comma-separated entries, each as a
/// host name in lower case, empty ones dropped.
pub open spec fn extra_hosts_spec(raw: Seq<char>) -> Seq<Seq<char>> {
    split(raw, ',').map_values(|e: Seq<char>| lower_seq(host_name_spec(e))).filter(|e: Seq<char>| e.len() > 0)
}

/// The names `DEN_WEB_HOSTS` adds, from its value.
pub fn extra_hosts(raw: &str) -> (r: Vec<String>)
    ensures
        r@.map_values(|s: String| s@) == extra_hosts_spec(raw@),
{
    let parts = crate::text::split_chars(&chars_of(raw), ',');
    let ghost m = split(raw@, ',').map_values(|e: Seq<char>| lower_seq(host_name_spec(e)));
    let mut out: Vec<String> = Vec::new();
    let mut i: usize = 0;
    assert(m.take(0) =~= Seq::<Seq<char>>::empty());
    while i < parts.len()
        invariant
            i <= parts@.len(),
            views(parts@) == split(raw@, ','),
            m == split(raw@, ',').map_values(|e: Seq<char>| lower_seq(host_name_spec(e))),
            out@.map_values(|s: String| s@) == m.take(i as int).filter(|e: Seq<char>| e.len() > 0),
        decreases parts@.len() - i,
    {
        assert(views(parts@)[i as int] == parts@[i as int]@);
        let h = lower_chars(&host_name_chars(&parts[i]));
        assert(h@ == m[i as int]);
        assert(m.take(i + 1) =~= m.take(i as int).push(m[i as int]));
        proof {
            m.take(i as int).lemma_filter_push(m[i as int], |e: Seq<char>| e.len() > 0);
        }
        let ghost before = out@.map_values(|s: String| s@);
        if h.len() > 0 {
            out.push(string_from_chars(&h));
            assert(out@.map_values(|s: String| s@) =~= before.push(h@));
        }
        i += 1;
    }
    assert(m.take(i as int) =~= m);
    out
}

/// The suffixes public DNS cannot hand to a stranger.
pub open spec fn private_suffixes() -> Seq<Seq<char>> {
    seq![".ts.net"@, ".local"@, ".internal"@, ".localhost"@, ".lan"@]
}

/// Whether `s` ends with `p`.
pub open spec fn ends_with(s: Seq<char>, p: Seq<char>) -> bool {
    p.len() <= s.len() && s.skip(s.len() - p.len()) == p
}

/// Whether Play should answer to a name: an address (as the flag says of
/// the name's host part), `localhost`, a name without a dot, a name under
/// a private suffix, or one of the extra hosts; an empty name never.
pub open spec fn name_is_ours_spec(name: Seq<char>, is_address: bool, extra: Seq<Seq<char>>) -> bool {
    let n = host_name_spec(name);
    if n.len() == 0 {
        false
    } else if is_address {
        true
    } else {
        let lower = lower_seq(trim_char_end(n, '.'));
        lower == "localhost"@ || !lower.contains('.') || (exists|i: int|
            0 <= i < private_suffixes().len() && ends_with(lower, #[trigger] private_suffixes()[i]))
            || extra.contains(lower)
    }
}

fn trim_dots_end(s: &[char]) -> (r: Vec<char>)
    ensures
        r@ == trim_char_end(s@, '.'),
{
    let mut j: usize = s.len();
    assert(s@.take(j as int) =~= s@);
    while j > 0 && s[j - 1] == '.'
        invariant
            j <= s@.len(),
            trim_char_end(s@, '.') == trim_char_end(s@.take(j as int), '.'),
        decreases j,
    {
        assert(s@.take(j as int).drop_last() =~= s@.take(j - 1));
        j -= 1;
    }
    let r = slice_chars(s, 0, j);
    assert(r@ =~= s@.take(j as int));
    r
}

fn ends_with_lit(s: &[char], lit: &str) -> (r: bool)
    ensures
        r == ends_with(s@, lit@),
{
    let p = chars_of(lit);
    ends_with_chars(s, &p)
}

/// Whether Play should answer to this name. `is_address` says whether the
/// name's host part parses as an IP address; `extra` holds the names
/// `DEN_WEB_HOSTS` adds.
pub fn name_is_ours(name: &str, is_address: bool, extra: &Vec<String>) -> (r: bool)
    ensures
        r == name_is_ours_spec(name@, is_address, extra@.map_values(|s: String| s@)),
{
    let n = host_name_chars(&chars_of(name));
    if n.len() == 0 {
        return false;
    }
    if is_address {
        return true;
    }
    let lower = lower_chars(&trim_dots_end(&n));
    let ghost l = lower@;
    if is_literal(&lower, "localhost") {
        return true;
    }
    proof {
        lemma_index_of(l, '.');
    }
    if find_char(&lower, '.').is_none() {
        return true;
    }
    let ghost sfx = private_suffixes();
    proof {
        reveal_strlit(".ts.net");
        reveal_strlit(".local");
        reveal_strlit(".internal");
        reveal_strlit(".localhost");
        reveal_strlit(".lan");
    }
    let a = ends_with_lit(&lower, ".ts.net");
    let b = ends_with_lit(&lower, ".local");
    let c = ends_with_lit(&lower, ".internal");
    let d = ends_with_lit(&lower, ".localhost");
    let e = ends_with_lit(&lower, ".lan");
    if a || b || c || d || e {
        proof {
            if a {
                assert(ends_with(l, sfx[0]));
            } else if b {
                assert(ends_with(l, sfx[1]));
            } else if c {
                assert(ends_with(l, sfx[2]));
            } else if d {
                assert(ends_with(l, sfx[3]));
            } else {
                assert(ends_with(l, sfx[4]));
            }
        }
        return true;
    }
    assert(!(exists|i: int| 0 <= i < sfx.len() && ends_with(l, #[trigger] sfx[i]))) by {
        assert forall|i: int| 0 <= i < sfx.len() implies !ends_with(l, #[trigger] sfx[i]) by {
            if i == 0 {
            } else if i == 1 {
            } else if i == 2 {
            } else if i == 3 {
            } else {
                assert(i == 4);
            }
        }
    }
    let mut k: usize = 0;
    while k < extra.len()
        invariant
            k <= extra@.len(),
            lower@ == l,
            n@.len() > 0,
            !is_address,
            n@ == host_name_spec(name@),
            l == lower_seq(trim_char_end(n@, '.')),
            forall|j: int| 0 <= j < k ==> extra@[j]@ != l,
        decreases extra@.len() - k,
    {
        let x = chars_of(extra[k].as_str());
        if same_chars(&x, &lower) {
            assert(extra@.map_values(|s: String| s@)[k as int] == l);
            return true;
        }
        assert(x@ == extra@[k as int]@);
        k += 1;
    }
    let ghost m = extra@.map_values(|s: String| s@);
    assert forall|j: int| 0 <= j < m.len() implies m[j] != l by {
        assert(extra@[j]@ != l);
    }
    false
}

/// ASCII upper case.
pub open spec fn upper(c: char) -> char {
    if 'a' <= c && c <= 'z' {
        ((c as u32) - 32) as char
    } else {
        c
    }
}

/// Whether a request method may change something: anything but `GET`,
/// `HEAD`, `OPTIONS` and `TRACE`, in any case.
pub open spec fn changes_something_spec(method: Seq<char>) -> bool {
    let m = method.map_values(|c: char| upper(c));
    !(m == "GET"@ || m == "HEAD"@ || m == "OPTIONS"@ || m == "TRACE"@)
}

fn upper_char(c: char) -> (r: char)
    ensures
        r == upper(c),
{
    if 'a' <= c && c <= 'z' {
        let b: u8 = c as u8;
        (b - 32) as char
    } else {
        c
    }
}

pub fn changes_something(method: &str) -> (r: bool)
    ensures
        r == changes_something_spec(method@),
{
    let s = chars_of(method);
    let mut m: Vec<char> = Vec::new();
    let mut i: usize = 0;
    while i < s.len()
        invariant
            i <= s@.len(),
            m@ == s@.take(i as int).map_values(|c: char| upper(c)),
        decreases s@.len() - i,
    {
        m.push(upper_char(s[i]));
        i += 1;
        assert(m@ =~= s@.take(i as int).map_values(|c: char| upper(c)));
    }
    assert(s@.take(i as int) =~= s@);
    !(is_literal(&m, "GET") || is_literal(&m, "HEAD") || is_literal(&m, "OPTIONS") || is_literal(&m, "TRACE"))
}

/// A trimmed, non-empty header value.
pub open spec fn present(v: Option<Seq<char>>) -> Option<Seq<char>> {
    match v {
        Some(x) => if trim(x).len() > 0 {
            Some(trim(x))
        } else {
            None
        },
        None => None,
    }
}

/// The reason to refuse a request, in the words Play says, or nothing when
/// it is welcome: a `Host` Play does not answer to is refused whatever the
/// method; a request that cannot change anything is welcome; one with no
/// `Origin` is somebody at a keyboard; one whose `Origin` names no page, or
/// a page on another host, is refused.
pub open spec fn refusal_spec(
    method: Seq<char>,
    host: Option<Seq<char>>,
    origin: Option<Seq<char>>,
    host_is_address: bool,
    extra: Seq<Seq<char>>,
) -> Option<Seq<char>> {
    let h = present(host);
    if h is Some && !name_is_ours_spec(h->0, host_is_address, extra) {
        let name = host_name_spec(h->0);
        Some(
            "Play does not answer to the name `"@ + name
                + "`. Open it by address instead, or set DEN_WEB_HOSTS="@ + name
                + " on the machine the library lives on."@,
        )
    } else if !changes_something_spec(method) {
        None
    } else {
        match present(origin) {
            None => None,
            Some(o) => match origin_host_spec(o) {
                None => Some("`"@ + o + "` is not a page Play serves."@),
                Some(from) => {
                    let here = match h {
                        Some(x) => host_name_spec(x),
                        None => Seq::<char>::empty(),
                    };
                    if lower_seq(from) == lower_seq(here) {
                        None
                    } else {
                        Some(
                            "That asked from `"@ + o
                                + "`, which is not Play's own page. Open the shelf itself to start or stop a game."@,
                        )
                    }
                },
            },
        }
    }
}

fn present_chars(v: Option<&str>) -> (r: Option<Vec<char>>)
    ensures
        match r {
            Some(x) => present(crate::locate::opt_str(v)) == Some(x@),
            None => present(crate::locate::opt_str(v)) is None,
        },
{
    match v {
        Some(x) => {
            let t = trim_chars(&chars_of(x));
            if t.len() > 0 {
                Some(t)
            } else {
                None
            }
        },
        None => None,
    }
}

/// The reason to refuse this request, in the words Play would say, or
/// nothing if it is welcome. `host_is_address` says whether the `Host`
/// header's host part parses as an IP address; `extra` holds the names
/// `DEN_WEB_HOSTS` adds.
pub fn refusal(
    method: &str,
    host: Option<&str>,
    origin: Option<&str>,
    host_is_address: bool,
    extra: &Vec<String>,
) -> (r: Option<String>)
    ensures
        match r {
            Some(m) => refusal_spec(
                method@,
                crate::locate::opt_str(host),
                crate::locate::opt_str(origin),
                host_is_address,
                extra@.map_values(|s: String| s@),
            ) == Some(m@),
            None => refusal_spec(
                method@,
                crate::locate::opt_str(host),
                crate::locate::opt_str(origin),
                host_is_address,
                extra@.map_values(|s: String| s@),
            ) is None,
        },
{
    let h = present_chars(host);
    if let Some(hh) = &h {
        let hs = string_from_chars(hh);
        if !name_is_ours(hs.as_str(), host_is_address, extra) {
            let name = host_name_chars(hh);
            let mut v: Vec<char> = Vec::new();
            push_str(&mut v, "Play does not answer to the name `");
            push_chars(&mut v, &name);
            push_str(&mut v, "`. Open it by address instead, or set DEN_WEB_HOSTS=");
            push_chars(&mut v, &name);
            push_str(&mut v, " on the machine the library lives on.");
            return Some(string_from_chars(&v));
        }
    }
    if !changes_something(method) {
        return None;
    }
    let o = match present_chars(origin) {
        None => {
            return None;
        },
        Some(o) => o,
    };
    match origin_host_chars(&o) {
        None => {
            let mut v: Vec<char> = Vec::new();
            push_str(&mut v, "`");
            push_chars(&mut v, &o);
            push_str(&mut v, "` is not a page Play serves.");
            Some(string_from_chars(&v))
        },
        Some(from) => {
            let here = match &h {
                Some(x) => host_name_chars(x),
                None => Vec::new(),
            };
            if same_chars(&lower_chars(&from), &lower_chars(&here)) {
                None
            } else {
                let mut v: Vec<char> = Vec::new();
                push_str(&mut v, "That asked from `");
                push_chars(&mut v, &o);
                push_str(
                    &mut v,
                    "`, which is not Play's own page. Open the shelf itself to start or stop a game.",
                );
                Some(string_from_chars(&v))
            }
        },
    }
}


/// Reading never needs an origin: a request that changes nothing, sent to
/// a name Play answers to (or with no `Host`), is welcome whatever its
/// `Origin` says.
pub proof fn lemma_reading_needs_no_origin(
    method: Seq<char>,
    host: Option<Seq<char>>,
    origin: Option<Seq<char>>,
    host_is_address: bool,
    extra: Seq<Seq<char>>,
)
    requires
        !changes_something_spec(method),
        present(host) is Some ==> name_is_ours_spec(present(host)->0, host_is_address, extra),
    ensures
        refusal_spec(method, host, origin, host_is_address, extra) is None,
{
}

/// A request with no page behind it is somebody at a keyboard: without an
/// `Origin`, only a `Host` Play does not answer to is refused.
pub proof fn lemma_no_origin_is_welcome(
    method: Seq<char>,
    host: Option<Seq<char>>,
    host_is_address: bool,
    extra: Seq<Seq<char>>,
)
    requires
        present(host) is Some ==> name_is_ours_spec(present(host)->0, host_is_address, extra),
    ensures
        refusal_spec(method, host, None, host_is_address, extra) is None,
{
}

/// A request from the shelf's own page goes through: when the `Origin`
/// names the same host as `Host`, in any case, nothing is refused.
pub proof fn lemma_own_page_goes_through(
    method: Seq<char>,
    host: Seq<char>,
    origin: Seq<char>,
    host_is_address: bool,
    extra: Seq<Seq<char>>,
)
    requires
        present(Some(host)) is Some,
        name_is_ours_spec(trim(host), host_is_address, extra),
        present(Some(origin)) is Some,
        origin_host_spec(trim(origin)) is Some,
        lower_seq(origin_host_spec(trim(origin))->0) == lower_seq(host_name_spec(trim(host))),
    ensures
        refusal_spec(method, Some(host), Some(origin), host_is_address, extra) is None,
{
}

/// A `Host` Play does not answer to is refused whatever the method and
/// `Origin`, and the refusal names the name.
pub proof fn lemma_foreign_name_is_refused(
    method: Seq<char>,
    host: Seq<char>,
    origin: Option<Seq<char>>,
    host_is_address: bool,
    extra: Seq<Seq<char>>,
)
    requires
        present(Some(host)) is Some,
        !name_is_ours_spec(trim(host), host_is_address, extra),
    ensures
        refusal_spec(method, Some(host), origin, host_is_address, extra) is Some,
        contains_seq(refusal_spec(method, Some(host), origin, host_is_address, extra)->0, host_name_spec(trim(host))),
{
    let name = host_name_spec(trim(host));
    let pre = "Play does not answer to the name `"@;
    let msg = refusal_spec(method, Some(host), origin, host_is_address, extra)->0;
    assert(msg.subrange(pre.len() as int, (pre.len() + name.len()) as int) =~= name);
    assert(occurs_at(msg, pre.len() as int, name));
}


/// A plain host name, as a `Host` header may carry it: no port, no
/// brackets, nothing to trim at its start.
pub open spec fn plain_label(label: Seq<char>) -> bool {
    &&& !label.contains(':')
    &&& label.len() > 0 ==> !crate::text::is_ws(label[0]) && label[0] != '['
}

proof fn lemma_plain_name_is_its_host(v: Seq<char>)
    requires
        v.len() > 0,
        !v.contains(':'),
        !crate::text::is_ws(v[0]),
        v[0] != '[',
        !crate::text::is_ws(v.last()),
    ensures
        host_name_spec(v) == v,
{
    assert(crate::text::trim_start(v) == v);
    assert(crate::text::trim_end(v) == v);
    assert(trim(v) == v);
    lemma_rindex_of(v, ':');
}

proof fn lemma_under_suffix(label: Seq<char>, sfx: Seq<char>, extra: Seq<Seq<char>>)
    requires
        plain_label(label),
        sfx.len() > 1,
        sfx[0] == '.',
        !sfx.contains(':'),
        'a' <= sfx.last() <= 'z',
        lower_seq(sfx) == sfx,
        private_suffixes().contains(sfx),
    ensures
        name_is_ours_spec(label + sfx, false, extra),
{
    let v = label + sfx;
    assert(v.last() == sfx.last());
    assert(v[0] == if label.len() > 0 { label[0] } else { sfx[0] });
    assert(!v.contains(':')) by {
        if v.contains(':') {
            let i = choose|i: int| 0 <= i < v.len() && v[i] == ':';
            if i < label.len() {
                assert(label[i] == ':');
                assert(label.contains(':'));
            } else {
                assert(sfx[i - label.len()] == ':');
                assert(sfx.contains(':'));
            }
        }
    }
    lemma_plain_name_is_its_host(v);
    assert(trim_char_end(v, '.') == v);
    let lw = lower_seq(v);
    assert(lw =~= lower_seq(label) + sfx) by {
        assert forall|i: int| 0 <= i < v.len() implies lw[i] == (lower_seq(label) + sfx)[i] by {
            if i >= label.len() {
                assert(lower_seq(sfx)[i - label.len()] == lower(sfx[i - label.len()]));
            }
        }
    }
    assert(ends_with(lw, sfx)) by {
        assert(lw.skip(lw.len() - sfx.len()) =~= sfx);
    }
    let k = choose|k: int| 0 <= k < private_suffixes().len() && private_suffixes()[k] == sfx;
    assert(0 <= k < private_suffixes().len() && ends_with(lw, private_suffixes()[k]));
}

/// Names under a private suffix are Play's: a plain host name ending in
/// `.ts.net`, `.local`, `.internal`, `.localhost` or `.lan` is answered to,
/// whatever comes before the suffix.
pub proof fn lemma_private_names_are_ours(label: Seq<char>, extra: Seq<Seq<char>>)
    requires
        plain_label(label),
    ensures
        name_is_ours_spec(label + ".ts.net"@, false, extra),
        name_is_ours_spec(label + ".local"@, false, extra),
        name_is_ours_spec(label + ".internal"@, false, extra),
        name_is_ours_spec(label + ".localhost"@, false, extra),
        name_is_ours_spec(label + ".lan"@, false, extra),
{
    reveal_strlit(".ts.net");
    reveal_strlit(".local");
    reveal_strlit(".internal");
    reveal_strlit(".localhost");
    reveal_strlit(".lan");
    let ps = private_suffixes();
    assert(ps[0] == ".ts.net"@ && ps[1] == ".local"@ && ps[2] == ".internal"@ && ps[3] == ".localhost"@
        && ps[4] == ".lan"@);
    assert(lower_seq(".ts.net"@) =~= ".ts.net"@);
    assert(lower_seq(".local"@) =~= ".local"@);
    assert(lower_seq(".internal"@) =~= ".internal"@);
    assert(lower_seq(".localhost"@) =~= ".localhost"@);
    assert(lower_seq(".lan"@) =~= ".lan"@);
    lemma_under_suffix(label, ".ts.net"@, extra);
    lemma_under_suffix(label, ".local"@, extra);
    lemma_under_suffix(label, ".internal"@, extra);
    lemma_under_suffix(label, ".localhost"@, extra);
    lemma_under_suffix(label, ".lan"@, extra);
}

/// A single-label name, such as a machine's own name on the network, is
/// Play's; a public name under `.com` is not, unless it was named as an
/// extra host.
pub proof fn lemma_bare_names_ours_public_names_not(label: Seq<char>, extra: Seq<Seq<char>>)
    requires
        plain_label(label),
        label.len() > 0,
        !label.contains('.'),
        !crate::text::is_ws(label.last()),
        label.last() != '.',
        !extra.contains(lower_seq(label + ".com"@)),
    ensures
        name_is_ours_spec(label, false, extra),
        !name_is_ours_spec(label + ".com"@, false, extra),
{
    reveal_strlit(".com");
    lemma_plain_name_is_its_host(label);
    assert(trim_char_end(label, '.') == label);
    assert(!lower_seq(label).contains('.')) by {
        if lower_seq(label).contains('.') {
            let i = choose|i: int| 0 <= i < lower_seq(label).len() && lower_seq(label)[i] == '.';
            assert(lower(label[i]) == '.');
            assert(label[i] == '.');
            assert(label.contains('.'));
        }
    }
    let v = label + ".com"@;
    assert(!v.contains(':')) by {
        if v.contains(':') {
            let i = choose|i: int| 0 <= i < v.len() && v[i] == ':';
            if i < label.len() {
                assert(label[i] == ':');
                assert(label.contains(':'));
            }
        }
    }
    assert(v[0] == label[0]);
    assert(v.last() == 'm');
    lemma_plain_name_is_its_host(v);
    assert(trim_char_end(v, '.') == v);
    let lv = lower_seq(v);
    assert(lv.len() == v.len());
    assert(lv[lv.len() - 4] == '.' && lv[lv.len() - 3] == 'c' && lv[lv.len() - 2] == 'o' && lv[lv.len() - 1]
        == 'm') by {
        assert(lv[lv.len() - 4] == lower(v[v.len() - 4]));
        assert(lv[lv.len() - 3] == lower(v[v.len() - 3]));
        assert(lv[lv.len() - 2] == lower(v[v.len() - 2]));
        assert(lv[lv.len() - 1] == lower(v[v.len() - 1]));
    }
    assert(lv.contains('.'));
    assert(lv != "localhost"@) by {
        reveal_strlit("localhost");
        if lv == "localhost"@ {
            assert(lv[lv.len() - 1] == 't');
        }
    }
    reveal_strlit(".ts.net");
    reveal_strlit(".local");
    reveal_strlit(".internal");
    reveal_strlit(".localhost");
    reveal_strlit(".lan");
    let ps = private_suffixes();
    assert forall|i: int| 0 <= i < ps.len() implies !ends_with(lv, #[trigger] ps[i]) by {
        if ends_with(lv, ps[i]) {
            let t = lv.skip(lv.len() - ps[i].len());
            assert(t[t.len() - 1] == lv[lv.len() - 1]);
            assert(t == ps[i]);
        }
    }
}

} // verus!
