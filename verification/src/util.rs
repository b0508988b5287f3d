//! Names for the shelf: extensions, stems, sanitized folder names, cleaned
//! titles, and joins that cannot climb out of their directory.

use vstd::prelude::*;
use crate::text::{
    chars_of, find_char, index_of, is_ws, is_ws_char, lemma_index_of, lemma_rindex_of, lemma_split_nonempty,
    lower_chars, lower_seq, push_chars, rfind_char, rindex_of, slice_chars, split, split_chars,
    string_from_chars, trim, trim_chars, trim_end, trim_end_chars, views, is_literal,
};
use crate::path::{extension, extension_of, file_stem, file_stem_of, push, push_chars_path};

verus! {

broadcast use vstd::string::group_string_axioms;

/// `ext_of`: the extension, ASCII lower-cased, or nothing.
pub open spec fn ext_spec(p: Seq<char>) -> Seq<char> {
    match extension(p) {
        None => Seq::<char>::empty(),
        Some(e) => lower_seq(e),
    }
}

/// `stem_of`: the file stem, or `unnamed`.
pub open spec fn stem_spec(p: Seq<char>) -> Seq<char> {
    match file_stem(p) {
        None => "unnamed"@,
        Some(s) => s,
    }
}

pub fn ext_of(path: &str) -> (r: String)
    ensures
        r@ == ext_spec(path@),
{
    match extension_of(path) {
        None => String::new(),
        Some(e) => string_from_chars(&lower_chars(&e)),
    }
}

pub fn stem_of(path: &str) -> (r: String)
    ensures
        r@ == stem_spec(path@),
{
    match file_stem_of(path) {
        None => "unnamed".to_string(),
        Some(s) => string_from_chars(&s),
    }
}

/// The characters a file name may not hold anywhere Den might be copied to.
pub open spec fn is_illegal(c: char) -> bool {
    c == '/' || c == '\\' || c == ':' || c == '*' || c == '?' || c == '"' || c == '<' || c
        == '>' || c == '|'
}

pub open spec fn is_control(c: char) -> bool {
    crate::text::is_control(c)
}

pub open spec fn clean_char(c: char) -> char {
    if is_illegal(c) || is_control(c) {
        ' '
    } else {
        c
    }
}

/// The whitespace-separated words of `s`, as `str::split_whitespace` finds
/// them.
pub open spec fn words(s: Seq<char>) -> Seq<Seq<char>>
    decreases s.len(),
{
    if s.len() == 0 {
        Seq::<Seq<char>>::empty()
    } else {
        let r = words(s.drop_last());
        let c = s.last();
        if is_ws(c) {
            r
        } else if s.len() >= 2 && !is_ws(s[s.len() - 2]) {
            r.update(r.len() - 1, r.last().push(c))
        } else {
            r.push(seq![c])
        }
    }
}

/// Words joined with single spaces.
pub open spec fn join_words(w: Seq<Seq<char>>) -> Seq<char>
    decreases w.len(),
{
    if w.len() == 0 {
        Seq::<char>::empty()
    } else if w.len() == 1 {
        w[0]
    } else {
        join_words(w.drop_last()) + seq![' '] + w.last()
    }
}

/// How many bytes a character takes in UTF-8.
pub open spec fn width(c: char) -> nat {
    if (c as u32) <= 0x7f {
        1
    } else if (c as u32) <= 0x7ff {
        2
    } else if (c as u32) <= 0xffff {
        3
    } else {
        4
    }
}

/// How many bytes a string takes in UTF-8.
pub open spec fn byte_len(s: Seq<char>) -> nat
    decreases s.len(),
{
    if s.len() == 0 {
        0
    } else {
        byte_len(s.drop_last()) + width(s.last())
    }
}

pub proof fn lemma_byte_len_prefix(s: Seq<char>, i: int)
    requires
        0 <= i <= s.len(),
    ensures
        byte_len(s.take(i)) <= byte_len(s),
    decreases s.len() - i,
{
    if i < s.len() {
        lemma_byte_len_prefix(s, i + 1);
        assert(s.take(i + 1).drop_last() =~= s.take(i));
    } else {
        assert(s.take(i) =~= s);
    }
}

/// Whether `s` takes exactly `n` bytes in UTF-8.
pub fn byte_len_is(s: &[char], n: usize) -> (r: bool)
    ensures
        r == (byte_len(s@) == n),
{
    let mut total: usize = 0;
    let mut i: usize = 0;
    assert(s@.take(0) =~= Seq::<char>::empty());
    while i < s.len()
        invariant
            i <= s@.len(),
            total == byte_len(s@.take(i as int)),
            total <= n,
        decreases s@.len() - i,
    {
        let w = width_of(s[i]);
        assert(s@.take(i + 1).drop_last() =~= s@.take(i as int));
        if w > n - total {
            proof {
                lemma_byte_len_prefix(s@, i + 1);
            }
            return false;
        }
        total = total + w;
        i += 1;
    }
    assert(s@.take(i as int) =~= s@);
    total == n
}

/// The longest prefix of `s` that fits in `max` bytes: where `str::truncate`
/// at the floor character boundary of `max` cuts.
pub open spec fn fit_prefix(s: Seq<char>, max: int) -> Seq<char>
    decreases s.len(),
{
    if s.len() == 0 || width(s[0]) > max {
        Seq::<char>::empty()
    } else {
        seq![s[0]] + fit_prefix(s.drop_first(), max - width(s[0]))
    }
}

/// The longest a sanitized name may be, in bytes.
pub const MAX_NAME: usize = 120;

/// A name safe to use as a folder: illegal and control characters become
/// spaces, runs of whitespace become one space, at most `MAX_NAME` bytes,
/// trimmed, and `unnamed` rather than nothing.
pub open spec fn sanitize_spec(raw: Seq<char>) -> Seq<char> {
    let t = trim(fit_prefix(join_words(words(raw.map_values(|c: char| clean_char(c)))), 120));
    if t.len() == 0 {
        "unnamed"@
    } else {
        t
    }
}

pub fn width_of(c: char) -> (w: usize)
    ensures
        w == width(c),
{
    let u: u32 = c as u32;
    if u <= 0x7f {
        1
    } else if u <= 0x7ff {
        2
    } else if u <= 0xffff {
        3
    } else {
        4
    }
}

/// How many leading characters of `s` fit in `max` bytes.
pub fn floor_char_boundary(s: &[char], max: usize) -> (k: usize)
    ensures
        k <= s@.len(),
        s@.take(k as int) == fit_prefix(s@, max as int),
{
    let mut i: usize = 0;
    let mut budget: usize = max;
    assert(s@.skip(0) =~= s@);
    assert(s@.take(0) + fit_prefix(s@.skip(0), max as int) =~= fit_prefix(s@, max as int));
    while i < s.len()
        invariant
            i <= s@.len(),
            budget <= max,
            fit_prefix(s@, max as int) == s@.take(i as int) + fit_prefix(
                s@.skip(i as int),
                budget as int,
            ),
        decreases s@.len() - i,
    {
        let w = width_of(s[i]);
        assert(s@.skip(i as int)[0] == s@[i as int]);
        if w > budget {
            assert(fit_prefix(s@.skip(i as int), budget as int) =~= Seq::<char>::empty());
            assert(s@.take(i as int) + Seq::<char>::empty() =~= s@.take(i as int));
            return i;
        }
        assert(s@.skip(i as int).drop_first() =~= s@.skip(i + 1));
        assert(s@.take(i + 1) =~= s@.take(i as int) + seq![s@[i as int]]);
        budget = budget - w;
        i += 1;
    }
    assert(s@.skip(i as int) =~= Seq::<char>::empty());
    assert(s@.take(i as int) + Seq::<char>::empty() =~= s@.take(i as int));
    i
}

pub(crate) proof fn lemma_words_nonempty_when_last_is_word(s: Seq<char>)
    requires
        s.len() > 0,
        !is_ws(s.last()),
    ensures
        words(s).len() > 0,
    decreases s.len(),
{
    if s.len() >= 2 && !is_ws(s[s.len() - 2]) {
        lemma_words_nonempty_when_last_is_word(s.drop_last());
    }
}

proof fn lemma_join_extend(r: Seq<Seq<char>>, c: char)
    requires
        r.len() > 0,
    ensures
        join_words(r.update(r.len() - 1, r.last().push(c))) == join_words(r).push(c),
{
    let r2 = r.update(r.len() - 1, r.last().push(c));
    if r.len() == 1 {
        assert(join_words(r2) == r2[0]);
    } else {
        assert(r2.drop_last() =~= r.drop_last());
        assert(join_words(r2) =~= join_words(r).push(c));
    }
}

/// Whitespace runs squeezed to single spaces, none at either end.
pub fn squash_whitespace(s: &[char]) -> (out: Vec<char>)
    ensures
        out@ == join_words(words(s@)),
{
    let mut out: Vec<char> = Vec::new();
    let mut i: usize = 0;
    assert(s@.take(0) =~= Seq::<char>::empty());
    while i < s.len()
        invariant
            i <= s@.len(),
            out@ == join_words(words(s@.take(i as int))),
            (out@.len() == 0) == (words(s@.take(i as int)).len() == 0),
        decreases s@.len() - i,
    {
        let c = s[i];
        let ghost t = s@.take(i + 1);
        let ghost r = words(s@.take(i as int));
        assert(t.drop_last() =~= s@.take(i as int));
        assert(t.last() == c);
        if is_ws_char(c) {
        } else if i >= 1 && !is_ws_char(s[i - 1]) {
            assert(t[t.len() - 2] == s@[i - 1]);
            assert(s@.take(i as int).last() == s@[i - 1]);
            proof {
                lemma_words_nonempty_when_last_is_word(s@.take(i as int));
                lemma_join_extend(r, c);
            }
            out.push(c);
        } else {
            if i >= 1 {
                assert(t[t.len() - 2] == s@[i - 1]);
            }
            let ghost before = out@;
            if out.len() > 0 {
                out.push(' ');
            }
            out.push(c);
            assert(r.push(seq![c]).drop_last() =~= r);
            proof {
                if r.len() == 0 {
                    assert(out@ =~= seq![c]);
                } else {
                    assert(out@ =~= before + seq![' '] + seq![c]);
                }
            }
        }
        i += 1;
    }
    assert(s@.take(s@.len() as int) =~= s@);
    out
}

pub fn clean_char_of(c: char) -> (r: char)
    ensures
        r == clean_char(c),
{
    if c == '/' || c == '\\' || c == ':' || c == '*' || c == '?' || c == '"' || c == '<' || c
        == '>' || c == '|' || c <= '\u{1f}' || ('\u{7f}' <= c && c <= '\u{9f}') {
        ' '
    } else {
        c
    }
}

/// `sanitize`, on characters.
pub fn sanitize_chars(raw: &[char]) -> (r: String)
    ensures
        r@ == sanitize_spec(raw@),
{
    let mut cleaned: Vec<char> = Vec::new();
    let mut i: usize = 0;
    while i < raw.len()
        invariant
            i <= raw@.len(),
            cleaned@ == raw@.take(i as int).map_values(|c: char| clean_char(c)),
        decreases raw@.len() - i,
    {
        cleaned.push(clean_char_of(raw[i]));
        i += 1;
        assert(cleaned@ =~= raw@.take(i as int).map_values(|c: char| clean_char(c)));
    }
    assert(raw@.take(raw@.len() as int) =~= raw@);
    let squashed = squash_whitespace(&cleaned);
    let k = floor_char_boundary(&squashed, MAX_NAME);
    let cut = slice_chars(&squashed, 0, k);
    assert(cut@ =~= squashed@.take(k as int));
    let t = trim_chars(&cut);
    if t.len() == 0 {
        "unnamed".to_string()
    } else {
        string_from_chars(&t)
    }
}

pub fn sanitize(raw: &str) -> (r: String)
    ensures
        r@ == sanitize_spec(raw@),
{
    sanitize_chars(&chars_of(raw))
}

pub proof fn lemma_trim_end_len(s: Seq<char>)
    ensures
        trim_end(s).len() <= s.len(),
    decreases s.len(),
{
    if s.len() > 0 && is_ws(s.last()) {
        lemma_trim_end_len(s.drop_last());
    }
}

/// Trailing parenthesised tags, such as `(USA)` or `(Disc 1)`, taken off
/// one at a time from the end, with the whitespace before each.
pub open spec fn strip_tags(s: Seq<char>) -> Seq<char>
    decreases s.len(),
{
    let t = trim_end(s);
    let open = rindex_of(t, '(');
    if open < 0 {
        t
    } else {
        let close = index_of(t.skip(open), ')');
        if close >= 0 && open + close == t.len() - 1 {
            proof {
                lemma_trim_end_len(s);
                lemma_rindex_of(t, '(');
            }
            strip_tags(t.take(open))
        } else {
            t
        }
    }
}

pub open spec fn underscores_to_spaces(s: Seq<char>) -> Seq<char> {
    s.map_values(|c: char| if c == '_' { ' ' } else { c })
}

/// A title from a file name: underscores read as spaces, trailing tags
/// dropped, then sanitized.
pub open spec fn clean_title_spec(raw: Seq<char>) -> Seq<char> {
    sanitize_spec(strip_tags(underscores_to_spaces(raw)))
}

pub fn strip_tags_chars(s: &[char]) -> (r: Vec<char>)
    ensures
        r@ == strip_tags(s@),
{
    let mut cur = slice_chars(s, 0, s.len());
    assert(cur@ =~= s@);
    loop
        invariant
            strip_tags(s@) == strip_tags(cur@),
        decreases cur@.len(),
    {
        let t = trim_end_chars(&cur);
        proof {
            lemma_trim_end_len(cur@);
            lemma_rindex_of(t@, '(');
        }
        match rfind_char(&t, '(') {
            None => {
                return t;
            },
            Some(open) => {
                let tail = slice_chars(&t, open, t.len());
                assert(tail@ =~= t@.skip(open as int));
                proof {
                    lemma_index_of(tail@, ')');
                }
                match find_char(&tail, ')') {
                    Some(close) => {
                        if open + close == t.len() - 1 {
                            cur = slice_chars(&t, 0, open);
                            assert(cur@ =~= t@.take(open as int));
                        } else {
                            return t;
                        }
                    },
                    None => {
                        return t;
                    },
                }
            },
        }
    }
}

pub fn clean_title(raw: &str) -> (r: String)
    ensures
        r@ == clean_title_spec(raw@),
{
    let rc = chars_of(raw);
    let mut s: Vec<char> = Vec::new();
    let mut i: usize = 0;
    while i < rc.len()
        invariant
            i <= rc@.len(),
            s@ == underscores_to_spaces(rc@.take(i as int)),
        decreases rc@.len() - i,
    {
        let c = rc[i];
        s.push(if c == '_' { ' ' } else { c });
        i += 1;
        assert(s@ =~= underscores_to_spaces(rc@.take(i as int)));
    }
    assert(rc@.take(rc@.len() as int) =~= rc@);
    let stripped = strip_tags_chars(&s);
    sanitize_chars(&stripped)
}

/// Backslashes read as separators.
pub open spec fn normalize_separators(s: Seq<char>) -> Seq<char> {
    s.map_values(|c: char| if c == '\\' { '/' } else { c })
}

/// Components pushed onto `dest` one by one: empty and `.` components are
/// skipped, and any `..` refuses the whole name.
pub open spec fn join_components(dest: Seq<char>, comps: Seq<Seq<char>>) -> Option<Seq<char>>
    decreases comps.len(),
{
    if comps.len() == 0 {
        Some(dest)
    } else {
        match join_components(dest, comps.drop_last()) {
            None => None,
            Some(p) => {
                let c = comps.last();
                if c.len() == 0 || c == seq!['.'] {
                    Some(p)
                } else if c == seq!['.', '.'] {
                    None
                } else {
                    Some(push(p, c))
                }
            },
        }
    }
}

pub open spec fn safe_join_spec(dest: Seq<char>, raw: Seq<char>) -> Option<Seq<char>> {
    join_components(dest, split(normalize_separators(raw), '/'))
}

/// `dest` joined with an archive entry's name, or nothing if the name would
/// climb out of `dest`.
pub fn safe_join(dest: &str, raw_name: &str) -> (r: Option<String>)
    ensures
        match r {
            None => safe_join_spec(dest@, raw_name@) is None,
            Some(p) => safe_join_spec(dest@, raw_name@) == Some(p@),
        },
{
    let raw = chars_of(raw_name);
    let mut norm: Vec<char> = Vec::new();
    let mut i: usize = 0;
    while i < raw.len()
        invariant
            i <= raw@.len(),
            norm@ == normalize_separators(raw@.take(i as int)),
        decreases raw@.len() - i,
    {
        let c = raw[i];
        norm.push(if c == '\\' { '/' } else { c });
        i += 1;
        assert(norm@ =~= normalize_separators(raw@.take(i as int)));
    }
    assert(raw@.take(raw@.len() as int) =~= raw@);
    let parts = split_chars(&norm, '/');
    let ghost comps = split(norm@, '/');
    let mut out = chars_of(dest);
    let mut j: usize = 0;
    assert(comps.take(0) =~= Seq::<Seq<char>>::empty());
    while j < parts.len()
        invariant
            j <= parts@.len(),
            views(parts@) == comps,
            comps == split(normalize_separators(raw_name@), '/'),
            join_components(dest@, comps.take(j as int)) == Some(out@),
        decreases parts@.len() - j,
    {
        let c = &parts[j];
        assert(comps[j as int] == c@);
        assert(comps.take(j + 1).drop_last() =~= comps.take(j as int));
        assert(comps.take(j + 1).last() == c@);
        if c.len() == 0 || (c.len() == 1 && c[0] == '.') {
            if c.len() == 1 {
                assert(c@ =~= seq!['.']);
            }
        } else if c.len() == 2 && c[0] == '.' && c[1] == '.' {
            assert(c@ =~= seq!['.', '.']);
            proof {
                lemma_join_none_stays(dest@, comps, j as int + 1);
            }
            assert(comps.take(parts@.len() as int) =~= comps);
            return None;
        } else {
            if c.len() == 1 {
                assert(c@ != seq!['.']);
            }
            if c.len() == 2 {
                assert(c@ != seq!['.', '.']);
            }
            out = push_chars_path(&out, c);
        }
        j += 1;
    }
    assert(comps.take(parts@.len() as int) =~= comps);
    Some(string_from_chars(&out))
}

proof fn lemma_join_none_stays(dest: Seq<char>, comps: Seq<Seq<char>>, k: int)
    requires
        0 <= k <= comps.len(),
        join_components(dest, comps.take(k)) is None,
    ensures
        join_components(dest, comps) is None,
    decreases comps.len() - k,
{
    if k < comps.len() {
        assert(comps.take(k + 1).drop_last() =~= comps.take(k));
        lemma_join_none_stays(dest, comps, k + 1);
    } else {
        assert(comps.take(k) =~= comps);
    }
}


proof fn lemma_byte_len_cons(c: char, t: Seq<char>)
    ensures
        byte_len(seq![c] + t) == width(c) + byte_len(t),
    decreases t.len(),
{
    if t.len() == 0 {
        assert(seq![c] + t =~= seq![c]);
        assert(seq![c].drop_last() =~= Seq::<char>::empty());
        assert(seq![c].last() == c);
        assert(byte_len(Seq::<char>::empty()) == 0);
    } else {
        lemma_byte_len_cons(c, t.drop_last());
        assert((seq![c] + t).drop_last() =~= seq![c] + t.drop_last());
        assert((seq![c] + t).last() == t.last());
    }
}

proof fn lemma_byte_len_at_most_four(s: Seq<char>)
    ensures
        byte_len(s) <= 4 * s.len(),
    decreases s.len(),
{
    if s.len() > 0 {
        lemma_byte_len_at_most_four(s.drop_last());
    }
}

proof fn lemma_fit_prefix_fits(s: Seq<char>, m: int)
    requires
        m >= 0,
    ensures
        byte_len(fit_prefix(s, m)) <= m,
    decreases s.len(),
{
    if s.len() == 0 || width(s[0]) > m {
    } else {
        lemma_fit_prefix_fits(s.drop_first(), m - width(s[0]));
        lemma_byte_len_cons(s[0], fit_prefix(s.drop_first(), m - width(s[0])));
    }
}

proof fn lemma_trim_start_shrinks(s: Seq<char>)
    ensures
        byte_len(crate::text::trim_start(s)) <= byte_len(s),
    decreases s.len(),
{
    if s.len() > 0 && is_ws(s[0]) {
        lemma_trim_start_shrinks(s.drop_first());
        assert(s =~= seq![s[0]] + s.drop_first());
        lemma_byte_len_cons(s[0], s.drop_first());
    }
}

proof fn lemma_trim_end_shrinks(s: Seq<char>)
    ensures
        byte_len(crate::text::trim_end(s)) <= byte_len(s),
    decreases s.len(),
{
    if s.len() > 0 && is_ws(s.last()) {
        lemma_trim_end_shrinks(s.drop_last());
    }
}

/// A sanitized name is never empty: a name of nothing but illegal
/// characters or whitespace is `unnamed`.
pub proof fn lemma_sanitize_is_named(raw: Seq<char>)
    ensures
        sanitize_spec(raw).len() > 0,
{
    reveal_strlit("unnamed");
}

/// A sanitized name fits in `MAX_NAME` bytes of UTF-8, whatever it was
/// made from.
pub proof fn lemma_sanitize_fits(raw: Seq<char>)
    ensures
        byte_len(sanitize_spec(raw)) <= MAX_NAME,
{
    let x = fit_prefix(join_words(words(raw.map_values(|c: char| clean_char(c)))), 120);
    lemma_fit_prefix_fits(join_words(words(raw.map_values(|c: char| clean_char(c)))), 120);
    lemma_trim_start_shrinks(x);
    lemma_trim_end_shrinks(crate::text::trim_start(x));
    if trim(x).len() == 0 {
        reveal_strlit("unnamed");
        lemma_byte_len_at_most_four("unnamed"@);
    }
}

proof fn lemma_split_parts_have_no_sep(s: Seq<char>, sep: char)
    ensures
        forall|i: int| 0 <= i < split(s, sep).len() ==> !(#[trigger] split(s, sep)[i]).contains(sep),
    decreases s.len(),
{
    if s.len() > 0 {
        lemma_split_parts_have_no_sep(s.drop_last(), sep);
        let r = split(s.drop_last(), sep);
        crate::text::lemma_split_nonempty(s.drop_last(), sep);
        if s.last() != sep {
            let q = r.update(r.len() - 1, r.last().push(s.last()));
            assert forall|i: int| 0 <= i < q.len() implies !(#[trigger] q[i]).contains(sep) by {
                if i == r.len() - 1 {
                    vstd::seq_lib::lemma_seq_contains_after_push(r.last(), s.last(), sep);
                } else {
                    assert(q[i] == r[i]);
                }
            }
        } else {
            let q = r.push(Seq::<char>::empty());
            assert forall|i: int| 0 <= i < q.len() implies !(#[trigger] q[i]).contains(sep) by {
                if i < r.len() {
                    assert(q[i] == r[i]);
                }
            }
        }
    }
}

proof fn lemma_join_components_under(dest: Seq<char>, comps: Seq<Seq<char>>)
    requires
        forall|i: int| 0 <= i < comps.len() ==> !(#[trigger] comps[i]).contains('/'),
    ensures
        join_components(dest, comps) matches Some(p) ==> p.len() >= dest.len() && p.take(dest.len() as int) == dest,
    decreases comps.len(),
{
    if comps.len() > 0 {
        assert forall|i: int| 0 <= i < comps.drop_last().len() implies !(
        #[trigger] comps.drop_last()[i]).contains('/') by {
            assert(comps.drop_last()[i] == comps[i]);
        }
        lemma_join_components_under(dest, comps.drop_last());
        match join_components(dest, comps.drop_last()) {
            None => {},
            Some(p) => {
                let c = comps.last();
                assert(!c.contains('/'));
                if c.len() > 0 && c != seq!['.'] && c != seq!['.', '.'] {
                    assert(c[0] != '/') by {
                        if c[0] == '/' {
                            assert(c.contains('/'));
                        }
                    }
                    let q = push(p, c);
                    if p.len() == 0 {
                        assert(dest.len() == 0);
                        assert(q.take(0) =~= dest);
                    } else {
                        assert(q.take(dest.len() as int) =~= p.take(dest.len() as int));
                    }
                }
            },
        }
    }
}

/// What an archive entry is joined to stays under the destination: the
/// result begins with the destination.
pub proof fn lemma_safe_join_stays_under(dest: Seq<char>, raw: Seq<char>)
    ensures
        safe_join_spec(dest, raw) matches Some(p) ==> p.len() >= dest.len() && p.take(dest.len() as int) == dest,
{
    lemma_split_parts_have_no_sep(normalize_separators(raw), '/');
    lemma_join_components_under(dest, split(normalize_separators(raw), '/'));
}

proof fn lemma_join_components_dotdot(dest: Seq<char>, comps: Seq<Seq<char>>)
    requires
        comps.contains(seq!['.', '.']),
    ensures
        join_components(dest, comps) is None,
    decreases comps.len(),
{
    let k = choose|k: int| 0 <= k < comps.len() && comps[k] == seq!['.', '.'];
    if k < comps.len() - 1 {
        assert(comps.drop_last()[k] == seq!['.', '.']);
        lemma_join_components_dotdot(dest, comps.drop_last());
    }
}

/// A name with a `..` component anywhere in it is refused whole.
pub proof fn lemma_dotdot_is_refused(dest: Seq<char>, raw: Seq<char>)
    requires
        split(normalize_separators(raw), '/').contains(seq!['.', '.']),
    ensures
        safe_join_spec(dest, raw) is None,
{
    lemma_join_components_dotdot(dest, split(normalize_separators(raw), '/'));
}


/// Whether a character may stand in a folder name: neither illegal nor a
/// control character.
pub open spec fn name_char(c: char) -> bool {
    !is_illegal(c) && !is_control(c)
}

/// Whether every character may stand in a folder name.
pub open spec fn name_chars(s: Seq<char>) -> bool {
    forall|i: int| 0 <= i < s.len() ==> name_char(#[trigger] s[i])
}

proof fn lemma_words_name_chars(s: Seq<char>)
    requires
        name_chars(s),
    ensures
        forall|k: int| 0 <= k < words(s).len() ==> name_chars(#[trigger] words(s)[k]),
    decreases s.len(),
{
    if s.len() > 0 {
        assert(name_chars(s.drop_last())) by {
            assert forall|i: int| 0 <= i < s.drop_last().len() implies name_char(#[trigger] s.drop_last()[i]) by {
                assert(s.drop_last()[i] == s[i]);
            }
        }
        lemma_words_name_chars(s.drop_last());
        let r = words(s.drop_last());
        let c = s.last();
        assert(name_char(c)) by {
            assert(s[s.len() - 1] == c);
        }
        if is_ws(c) {
        } else if s.len() >= 2 && !is_ws(s[s.len() - 2]) {
            assert(s.drop_last().last() == s[s.len() - 2]);
            lemma_words_nonempty_when_last_is_word(s.drop_last());
            let q = r.update(r.len() - 1, r.last().push(c));
            assert forall|k: int| 0 <= k < q.len() implies name_chars(#[trigger] q[k]) by {
                if k == r.len() - 1 {
                    assert(name_chars(r[r.len() - 1]));
                    assert forall|i: int| 0 <= i < q[k].len() implies name_char(#[trigger] q[k][i]) by {
                        if i < r.last().len() {
                            assert(q[k][i] == r.last()[i]);
                        }
                    }
                } else {
                    assert(q[k] == r[k]);
                }
            }
        } else {
            let q = r.push(seq![c]);
            assert forall|k: int| 0 <= k < q.len() implies name_chars(#[trigger] q[k]) by {
                if k < r.len() {
                    assert(q[k] == r[k]);
                } else {
                    assert(q[k] == seq![c]);
                }
            }
        }
    }
}

proof fn lemma_join_name_chars(w: Seq<Seq<char>>)
    requires
        forall|k: int| 0 <= k < w.len() ==> name_chars(#[trigger] w[k]),
    ensures
        name_chars(join_words(w)),
    decreases w.len(),
{
    if w.len() == 1 {
        assert(name_chars(w[0]));
    } else if w.len() > 1 {
        assert forall|k: int| 0 <= k < w.drop_last().len() implies name_chars(#[trigger] w.drop_last()[k]) by {
            assert(w.drop_last()[k] == w[k]);
        }
        lemma_join_name_chars(w.drop_last());
        let a = join_words(w.drop_last());
        let j = a + seq![' '] + w.last();
        assert(name_chars(w[w.len() - 1]));
        assert forall|i: int| 0 <= i < j.len() implies name_char(#[trigger] j[i]) by {
            if i < a.len() {
                assert(j[i] == a[i]);
            } else if i == a.len() {
                assert(j[i] == ' ');
            } else {
                assert(j[i] == w.last()[i - a.len() - 1]);
            }
        }
    }
}

proof fn lemma_fit_name_chars(s: Seq<char>, m: int)
    requires
        name_chars(s),
    ensures
        name_chars(fit_prefix(s, m)),
    decreases s.len(),
{
    if s.len() > 0 && width(s[0]) <= m {
        assert(name_chars(s.drop_first())) by {
            assert forall|i: int| 0 <= i < s.drop_first().len() implies name_char(#[trigger] s.drop_first()[i]) by {
                assert(s.drop_first()[i] == s[i + 1]);
            }
        }
        lemma_fit_name_chars(s.drop_first(), m - width(s[0]));
        let f = fit_prefix(s.drop_first(), m - width(s[0]));
        let j = seq![s[0]] + f;
        assert forall|i: int| 0 <= i < j.len() implies name_char(#[trigger] j[i]) by {
            if i == 0 {
                assert(j[0] == s[0]);
            } else {
                assert(j[i] == f[i - 1]);
            }
        }
    }
}

proof fn lemma_trim_name_chars(s: Seq<char>)
    requires
        name_chars(s),
    ensures
        name_chars(trim(s)),
{
    lemma_trim_start_sub(s);
    lemma_trim_end_sub(crate::text::trim_start(s));
}

proof fn lemma_trim_start_sub(s: Seq<char>)
    requires
        name_chars(s),
    ensures
        name_chars(crate::text::trim_start(s)),
    decreases s.len(),
{
    if s.len() > 0 && is_ws(s[0]) {
        assert(name_chars(s.drop_first())) by {
            assert forall|i: int| 0 <= i < s.drop_first().len() implies name_char(#[trigger] s.drop_first()[i]) by {
                assert(s.drop_first()[i] == s[i + 1]);
            }
        }
        lemma_trim_start_sub(s.drop_first());
    }
}

proof fn lemma_trim_end_sub(s: Seq<char>)
    requires
        name_chars(s),
    ensures
        name_chars(crate::text::trim_end(s)),
    decreases s.len(),
{
    if s.len() > 0 && is_ws(s.last()) {
        assert(name_chars(s.drop_last())) by {
            assert forall|i: int| 0 <= i < s.drop_last().len() implies name_char(#[trigger] s.drop_last()[i]) by {
                assert(s.drop_last()[i] == s[i]);
            }
        }
        lemma_trim_end_sub(s.drop_last());
    }
}

/// A sanitized name holds no character a folder name may not: none of
/// `/ \ : * ? " < > |` and no control character.
pub proof fn lemma_sanitize_is_clean(raw: Seq<char>)
    ensures
        name_chars(sanitize_spec(raw)),
{
    let cleaned = raw.map_values(|c: char| clean_char(c));
    assert forall|i: int| 0 <= i < cleaned.len() implies name_char(#[trigger] cleaned[i]) by {
        assert(cleaned[i] == clean_char(raw[i]));
    }
    lemma_words_name_chars(cleaned);
    lemma_join_name_chars(words(cleaned));
    lemma_fit_name_chars(join_words(words(cleaned)), 120);
    lemma_trim_name_chars(fit_prefix(join_words(words(cleaned)), 120));
    reveal_strlit("unnamed");
}

} // verus!
