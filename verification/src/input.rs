//! Which game controllers are attached, read from what Linux's sysfs says
//! of each input node.
//!
//! Walking `/sys/class/input` and reading its files is I/O, done by the
//! program around this library; each node's files arrive here as a
//! `NodeInfo`, and everything decided from them is here: which nodes are
//! gamepads, which are the same device seen twice, what each pad is called
//! for player assignment, and the order RetroArch numbers them in.

use vstd::prelude::*;
use crate::text::{digit, chars_of, is_ascii_alnum, is_ascii_alnum_char, is_ws, is_ws_char, lower, lower_char, views,
    string_from_chars, push_chars, push_str, dec, decimal};
use crate::util::{words, lemma_words_nonempty_when_last_is_word};
use crate::order::{KeyView, SortKey, sort_positions, sorted_positions};

verus! {

broadcast use vstd::string::group_string_axioms;

/// The first key code of the gamepad buttons, `BTN_GAMEPAD`.
pub const BTN_GAMEPAD: usize = 0x130;

/// The whitespace-separated words of a text, in order.
pub fn words_of(s: &[char]) -> (r: Vec<Vec<char>>)
    ensures
        views(r@) == words(s@),
{
    let mut out: Vec<Vec<char>> = Vec::new();
    let mut i: usize = 0;
    assert(s@.take(0) =~= Seq::<char>::empty());
    while i < s.len()
        invariant
            i <= s@.len(),
            views(out@) == words(s@.take(i as int)),
        decreases s@.len() - i,
    {
        let c = s[i];
        let ghost t = s@.take(i + 1);
        let ghost r = words(s@.take(i as int));
        assert(t.drop_last() =~= s@.take(i as int));
        assert(t.last() == c);
        if is_ws_char(c) {
        } else if i >= 1 && !is_ws_char(s[i - 1]) {
            assert(t[t.len() - 2] == s@[i - 1]);
            assert(s@.take(i as int).last() == s@[i - 1]);
            proof {
                lemma_words_nonempty_when_last_is_word(s@.take(i as int));
            }
            let k = out.len() - 1;
            let mut w = out[k].clone();
            w.push(c);
            let ghost before = out@;
            out.set(k, w);
            assert(views(out@) =~= r.update(r.len() - 1, r.last().push(c)));
        } else {
            if i >= 1 {
                assert(t[t.len() - 2] == s@[i - 1]);
            }
            let mut w: Vec<char> = Vec::new();
            w.push(c);
            let ghost before = out@;
            out.push(w);
            assert(views(out@) =~= r.push(seq![c]));
        }
        i += 1;
    }
    assert(s@.take(i as int) =~= s@);
    out
}

/// The value of a hexadecimal digit, or -1 for any other character.
pub open spec fn hex_val(c: char) -> int {
    if '0' <= c && c <= '9' {
        c as int - '0' as int
    } else if 'a' <= c && c <= 'f' {
        c as int - 'a' as int + 10
    } else if 'A' <= c && c <= 'F' {
        c as int - 'A' as int + 10
    } else {
        -1
    }
}

/// The value of a decimal digit, or -1 for any other character.
pub open spec fn dec_val(c: char) -> int {
    if '0' <= c && c <= '9' {
        c as int - '0' as int
    } else {
        -1
    }
}

/// The value of a run of digits in a base, read most significant first.
pub open spec fn digits_value(t: Seq<char>, base: int, hex: bool) -> int
    decreases t.len(),
{
    if t.len() == 0 {
        0
    } else {
        digits_value(t.drop_last(), base, hex) * base + if hex {
            hex_val(t.last())
        } else {
            dec_val(t.last())
        }
    }
}

/// Whether every character of `t` is a digit of the base.
pub open spec fn all_digits(t: Seq<char>, hex: bool) -> bool {
    forall|i: int| 0 <= i < t.len() ==> digit_ok(#[trigger] t[i], hex)
}

/// Whether a character is a digit of base 16 (`hex`) or 10.
pub open spec fn digit_ok(c: char, hex: bool) -> bool {
    (if hex {
        hex_val(c)
    } else {
        dec_val(c)
    }) >= 0
}

/// What `from_str_radix` (16) and `from_str` (10) give for an unsigned
/// integer of at most `max`: an optional `+`, then one or more digits of the
/// base, with a value that fits; anything else is an error.
pub open spec fn parse_unsigned(s: Seq<char>, hex: bool, max: int) -> Option<int> {
    let t = if s.len() > 0 && s[0] == '+' {
        s.skip(1)
    } else {
        s
    };
    let base = if hex {
        16int
    } else {
        10int
    };
    if t.len() == 0 || !all_digits(t, hex) {
        None
    } else if digits_value(t, base, hex) > max {
        None
    } else {
        Some(digits_value(t, base, hex))
    }
}

fn digit_of(c: char, hex: bool) -> (r: Option<u64>)
    ensures
        match r {
            Some(d) => d == (if hex {
                hex_val(c)
            } else {
                dec_val(c)
            }) && d < (if hex {
                16int
            } else {
                10int
            }),
            None => (if hex {
                hex_val(c)
            } else {
                dec_val(c)
            }) < 0,
        },
{
    if '0' <= c && c <= '9' {
        Some((c as u64) - ('0' as u64))
    } else if hex && 'a' <= c && c <= 'f' {
        Some((c as u64) - ('a' as u64) + 10)
    } else if hex && 'A' <= c && c <= 'F' {
        Some((c as u64) - ('A' as u64) + 10)
    } else {
        None
    }
}

proof fn lemma_digits_nonneg(t: Seq<char>, base: int, hex: bool)
    requires
        all_digits(t, hex),
        base > 0,
    ensures
        digits_value(t, base, hex) >= 0,
    decreases t.len(),
{
    if t.len() > 0 {
        assert(all_digits(t.drop_last(), hex)) by {
            assert forall|i: int| 0 <= i < t.drop_last().len() implies digit_ok(
                #[trigger] t.drop_last()[i],
                hex,
            ) by {
                assert(t.drop_last()[i] == t[i]);
            }
        }
        lemma_digits_nonneg(t.drop_last(), base, hex);
        assert(t[t.len() - 1] == t.last());
        assert(digits_value(t.drop_last(), base, hex) * base >= 0) by (nonlinear_arith)
            requires
                digits_value(t.drop_last(), base, hex) >= 0,
                base > 0,
        ;
    }
}

/// An unsigned integer in base 16 or 10, as the standard parsers read it.
pub fn parse_unsigned_chars(s: &[char], hex: bool, max: u64) -> (r: Option<u64>)
    ensures
        match r {
            Some(v) => parse_unsigned(s@, hex, max as int) == Some(v as int),
            None => parse_unsigned(s@, hex, max as int) is None,
        },
{
    let start: usize = if s.len() > 0 && s[0] == '+' {
        1
    } else {
        0
    };
    let ghost t = if s@.len() > 0 && s@[0] == '+' {
        s@.skip(1)
    } else {
        s@
    };
    assert(t =~= s@.skip(start as int));
    if start >= s.len() {
        return None;
    }
    let base: u64 = if hex {
        16
    } else {
        10
    };
    let mut acc: u64 = 0;
    let mut over = false;
    let mut i: usize = start;
    assert(t.take(0) =~= Seq::<char>::empty());
    while i < s.len()
        invariant
            start <= i <= s@.len(),
            start < s@.len(),
            t == s@.skip(start as int),
            t == (if s@.len() > 0 && s@[0] == '+' {
                s@.skip(1)
            } else {
                s@
            }),
            base == (if hex {
                16u64
            } else {
                10u64
            }),
            all_digits(t.take(i - start), hex),
            over ==> digits_value(t.take(i - start), base as int, hex) > max,
            !over ==> acc == digits_value(t.take(i - start), base as int, hex) && acc <= max,
        decreases s@.len() - i,
    {
        let ghost p = t.take(i - start);
        let ghost q = t.take(i + 1 - start);
        assert(q.drop_last() =~= p);
        assert(q.last() == s@[i as int]);
        match digit_of(s[i], hex) {
            None => {
                assert(!all_digits(t, hex)) by {
                    assert(t[i - start] == s@[i as int]);
                    assert(!digit_ok(t[i - start], hex));
                }
                return None;
            },
            Some(d) => {
                assert(all_digits(q, hex)) by {
                    assert forall|j: int| 0 <= j < q.len() implies digit_ok(#[trigger] q[j], hex) by {
                        if j < p.len() {
                            assert(q[j] == p[j]);
                        }
                    }
                }
                proof {
                    lemma_digits_nonneg(p, base as int, hex);
                }
                if over {
                    assert(digits_value(p, base as int, hex) * (base as int) >= digits_value(p, base as int, hex))
                        by (nonlinear_arith)
                        requires
                            digits_value(p, base as int, hex) >= 0,
                            base >= 1,
                    ;
                } else {
                    if d > max {
                        over = true;
                        assert(digits_value(q, base as int, hex) > max) by (nonlinear_arith)
                            requires
                                digits_value(q, base as int, hex) == acc * base + d,
                                d > max,
                                acc >= 0,
                                base >= 10,
                        ;
                    } else {
                        let lim = (max - d) / base;
                        if acc > lim {
                            over = true;
                            assert(digits_value(q, base as int, hex) > max) by (nonlinear_arith)
                                requires
                                    digits_value(q, base as int, hex) == acc * base + d,
                                    acc > lim,
                                    lim == (max - d) / (base as int),
                                    d <= max,
                                    base >= 10,
                            ;
                        } else {
                            assert(acc * base + d <= max) by (nonlinear_arith)
                                requires
                                    acc <= lim,
                                    lim == (max - d) / (base as int),
                                    d <= max,
                                    base >= 10,
                            ;
                            acc = acc * base + d;
                        }
                    }
                }
            },
        }
        i += 1;
    }
    assert(t.take(i - start) =~= t);
    if over {
        None
    } else {
        Some(acc)
    }
}

/// Whether a capability bitmask, as sysfs prints it (hexadecimal words of
/// `width` bits, most significant first), has `bit` set. A word that does
/// not parse, or a bit beyond the words there are, reads as unset.
pub open spec fn key_bit_spec(mask: Seq<char>, bit: int, width: int) -> bool {
    let w = words(mask);
    let k = bit / width;
    if w.len() == 0 || k >= w.len() {
        false
    } else {
        match parse_unsigned(w[w.len() - 1 - k], true, u64::MAX as int) {
            None => false,
            Some(v) => ((v as u64) >> ((bit % width) as u64)) & 1 == 1,
        }
    }
}

pub fn has_key_bit_wide(bitmask: &str, bit: usize, width: usize) -> (r: bool)
    requires
        0 < width <= 64,
    ensures
        r == key_bit_spec(bitmask@, bit as int, width as int),
{
    let chars = chars_of(bitmask);
    let ws = words_of(&chars);
    let k = bit / width;
    if ws.len() == 0 || k >= ws.len() {
        return false;
    }
    let word = &ws[ws.len() - 1 - k];
    assert(views(ws@)[ws@.len() - 1 - k] == word@);
    match parse_unsigned_chars(word, true, u64::MAX) {
        None => false,
        Some(v) => {
            let shift = (bit % width) as u64;
            (v >> shift) & 1 == 1
        },
    }
}

/// Whether the bitmask has `bit` set, in words of this machine's width.
pub fn has_key_bit(bitmask: &str, bit: usize) -> (r: bool)
    ensures
        r == key_bit_spec(bitmask@, bit as int, usize::BITS as int),
{
    has_key_bit_wide(bitmask, bit, usize::BITS as usize)
}

/// The number of a joystick node, `js<N>`.
pub open spec fn joystick_spec(name: Seq<char>) -> Option<int> {
    if name.len() >= 2 && name[0] == 'j' && name[1] == 's' {
        parse_unsigned(name.skip(2), false, usize::MAX as int)
    } else {
        None
    }
}

pub fn joystick_number(file_name: &str) -> (r: Option<usize>)
    ensures
        match r {
            Some(n) => joystick_spec(file_name@) == Some(n as int),
            None => joystick_spec(file_name@) is None,
        },
{
    let c = chars_of(file_name);
    if c.len() < 2 || c[0] != 'j' || c[1] != 's' {
        return None;
    }
    let rest = crate::text::slice_chars(&c, 2, c.len());
    assert(rest@ =~= file_name@.skip(2));
    match parse_unsigned_chars(&rest, false, usize::MAX as u64) {
        Some(n) => Some(n as usize),
        None => None,
    }
}


/// Leading copies of `c` removed.
pub open spec fn trim_char_start(s: Seq<char>, c: char) -> Seq<char>
    decreases s.len(),
{
    if s.len() > 0 && s[0] == c {
        trim_char_start(s.drop_first(), c)
    } else {
        s
    }
}

/// Trailing copies of `c` removed.
pub open spec fn trim_char_end(s: Seq<char>, c: char) -> Seq<char>
    decreases s.len(),
{
    if s.len() > 0 && s.last() == c {
        trim_char_end(s.drop_last(), c)
    } else {
        s
    }
}

/// `c` trimmed from both ends, as `trim_matches(c)` does.
pub open spec fn trim_char(s: Seq<char>, c: char) -> Seq<char> {
    trim_char_end(trim_char_start(s, c), c)
}

fn trim_char_chars(s: &[char], c: char) -> (r: Vec<char>)
    ensures
        r@ == trim_char(s@, c),
{
    let mut i: usize = 0;
    assert(s@.skip(0) =~= s@);
    while i < s.len() && s[i] == c
        invariant
            i <= s@.len(),
            trim_char_start(s@, c) == trim_char_start(s@.skip(i as int), c),
        decreases s@.len() - i,
    {
        assert(s@.skip(i as int).drop_first() =~= s@.skip(i + 1));
        i += 1;
    }
    let a = crate::text::slice_chars(s, i, s.len());
    assert(a@ =~= s@.skip(i as int));
    let mut j: usize = a.len();
    assert(a@.take(j as int) =~= a@);
    while j > 0 && a[j - 1] == c
        invariant
            j <= a@.len(),
            trim_char_end(a@, c) == trim_char_end(a@.take(j as int), c),
        decreases j,
    {
        assert(a@.take(j as int).drop_last() =~= a@.take(j - 1));
        j -= 1;
    }
    let r = crate::text::slice_chars(&a, 0, j);
    assert(r@ =~= a@.take(j as int));
    r
}

/// A character of a name kept as it is when ASCII alphanumeric, otherwise
/// a dash.
pub open spec fn dashed(c: char) -> char {
    if is_ascii_alnum(c) {
        c
    } else {
        '-'
    }
}

/// A name as a slug: ASCII lower case, every other character a dash, no
/// dash at either end.
pub open spec fn slug(name: Seq<char>) -> Seq<char> {
    trim_char(name.map_values(|c: char| dashed(lower(c))), '-')
}

pub fn slug_of(name: &[char]) -> (r: Vec<char>)
    ensures
        r@ == slug(name@),
{
    let mut m: Vec<char> = Vec::new();
    let mut i: usize = 0;
    while i < name.len()
        invariant
            i <= name@.len(),
            m@ == name@.take(i as int).map_values(|c: char| dashed(lower(c))),
        decreases name@.len() - i,
    {
        let l = lower_char(name[i]);
        let d = if is_ascii_alnum_char(l) {
            l
        } else {
            '-'
        };
        m.push(d);
        i += 1;
        assert(m@ =~= name@.take(i as int).map_values(|c: char| dashed(lower(c))));
    }
    assert(name@.take(i as int) =~= name@);
    trim_char_chars(&m, '-')
}

/// What one input node's files say: its file name, the key capabilities
/// of its device, the device's name, the file name the `device` link
/// resolves to (when it resolves), and the device's vendor and product ids,
/// each as read and trimmed.
pub struct NodeInfo {
    pub file_name: String,
    pub caps: String,
    pub name: String,
    pub device_key: Option<String>,
    pub vendor: String,
    pub product: String,
}

/// A node's files as values; `key` is the device it belongs to, or the
/// node itself when its device link does not resolve.
pub struct NodeView {
    pub file_name: Seq<char>,
    pub caps: Seq<char>,
    pub name: Seq<char>,
    pub key: Seq<char>,
    pub vendor: Seq<char>,
    pub product: Seq<char>,
}

impl View for NodeInfo {
    type V = NodeView;

    open spec fn view(&self) -> NodeView {
        NodeView {
            file_name: self.file_name@,
            caps: self.caps@,
            name: self.name@,
            key: match self.device_key {
                Some(k) => k@,
                None => self.file_name@,
            },
            vendor: self.vendor@,
            product: self.product@,
        }
    }
}

/// A controller Den can assign to a player.
#[derive(Debug, Clone)]
pub struct ControllerInfo {
    pub id: String,
    pub identity: String,
    pub name: String,
    pub player: Option<usize>,
    pub index: Option<usize>,
}

/// Whether a node's name starts with `js`: a joystick node.
pub open spec fn starts_js(s: Seq<char>) -> bool {
    s.len() >= 2 && s[0] == 'j' && s[1] == 's'
}

/// The order nodes are looked at in: numbered joystick nodes first, by
/// their joystick number, then other joystick nodes, then the rest, each
/// of those by name.
pub open spec fn node_order_key(n: NodeView) -> KeyView {
    match joystick_spec(n.file_name) {
        Some(j) => KeyView { tier: 0u8, num: j as u64, text: n.file_name },
        None => KeyView {
            tier: if starts_js(n.file_name) {
                1u8
            } else {
                2u8
            },
            num: 0u64,
            text: n.file_name,
        },
    }
}

/// The node views of a list of nodes.
pub open spec fn node_views(v: Seq<NodeInfo>) -> Seq<NodeView> {
    v.map_values(|n: NodeInfo| n@)
}

/// The items of `s` at the given positions.
pub open spec fn pick<T>(s: Seq<T>, ps: Seq<int>) -> Seq<T> {
    ps.map_values(|p: int| s[p])
}

/// The nodes in the order they are looked at.
pub open spec fn in_node_order(nodes: Seq<NodeView>) -> Seq<NodeView> {
    pick(nodes, sorted_positions(nodes.len(), nodes.map_values(|n: NodeView| node_order_key(n))))
}

/// Whether a node is a gamepad: its device reports the gamepad buttons
/// and has a name.
pub open spec fn is_pad(n: NodeView) -> bool {
    key_bit_spec(n.caps, BTN_GAMEPAD as int, usize::BITS as int) && n.name.len() > 0
}

/// The devices of a list of nodes.
pub open spec fn keys_of(s: Seq<NodeView>) -> Seq<Seq<char>> {
    s.map_values(|n: NodeView| n.key)
}

/// The gamepad nodes of a list, the first node of each device only.
pub open spec fn accepted(s: Seq<NodeView>) -> Seq<NodeView>
    decreases s.len(),
{
    if s.len() == 0 {
        Seq::<NodeView>::empty()
    } else {
        let r = accepted(s.drop_last());
        let n = s.last();
        if is_pad(n) && !keys_of(r).contains(n.key) {
            r.push(n)
        } else {
            r
        }
    }
}

/// What a pad is known as before any repeat is numbered: its slug, after
/// `vendor:product:` when the device gives either.
pub open spec fn base_of(n: NodeView) -> Seq<char> {
    if n.vendor.len() == 0 && n.product.len() == 0 {
        slug(n.name)
    } else {
        n.vendor + seq![':'] + n.product + seq![':'] + slug(n.name)
    }
}

/// How often `b` occurs in `s`.
pub open spec fn occurrences(s: Seq<Seq<char>>, b: Seq<char>) -> nat
    decreases s.len(),
{
    if s.len() == 0 {
        0
    } else {
        occurrences(s.drop_last(), b) + if s.last() == b {
            1nat
        } else {
            0nat
        }
    }
}

/// The identity of the `k`th pad: its base, numbered `#n` when it is the
/// `n`th pad with that base.
pub open spec fn identity_at(s: Seq<NodeView>, k: int) -> Seq<char> {
    let b = base_of(s[k]);
    let c = occurrences(s.take(k + 1).map_values(|n: NodeView| base_of(n)), b);
    if c == 1 {
        b
    } else {
        b + seq!['#'] + dec(c)
    }
}

/// A pad as found, before it is placed.
pub struct PadView {
    pub id: Seq<char>,
    pub identity: Seq<char>,
    pub name: Seq<char>,
    pub js: Option<int>,
    pub key: Seq<char>,
}

/// The pads of the accepted nodes, with their identities and joystick
/// numbers.
pub open spec fn pads_of(s: Seq<NodeView>) -> Seq<PadView> {
    Seq::new(
        s.len(),
        |k: int|
            PadView {
                id: s[k].file_name,
                identity: identity_at(s, k),
                name: s[k].name,
                js: joystick_spec(s[k].file_name),
                key: s[k].key,
            },
    )
}

/// Pads in the order of their devices.
pub open spec fn by_device(p: Seq<PadView>) -> Seq<PadView> {
    pick(p, sorted_positions(p.len(), p.map_values(|x: PadView| KeyView { tier: 0u8, num: 0u64, text: x.key })))
}

/// The slot order of a pad: numbered joystick nodes by number, then the
/// rest by id.
pub open spec fn slot_key(x: PadView) -> KeyView {
    match x.js {
        Some(n) => KeyView { tier: 0u8, num: n as u64, text: Seq::<char>::empty() },
        None => KeyView { tier: 1u8, num: 0u64, text: x.id },
    }
}

/// Pads in slot order.
pub open spec fn by_slot(p: Seq<PadView>) -> Seq<PadView> {
    pick(p, sorted_positions(p.len(), p.map_values(|x: PadView| slot_key(x))))
}

/// The attached pads, in RetroArch's slot order.
pub open spec fn detect_spec(nodes: Seq<NodeView>) -> Seq<PadView> {
    by_slot(by_device(pads_of(accepted(in_node_order(nodes)))))
}


/// A pad as found, before it is placed.
pub struct Pad {
    pub id: String,
    pub identity: String,
    pub name: String,
    pub js: Option<usize>,
    pub key: Vec<char>,
}

impl View for Pad {
    type V = PadView;

    open spec fn view(&self) -> PadView {
        PadView {
            id: self.id@,
            identity: self.identity@,
            name: self.name@,
            js: match self.js {
                Some(n) => Some(n as int),
                None => None,
            },
            key: self.key@,
        }
    }
}

/// The views of a list of pads.
pub open spec fn pad_views(v: Seq<Pad>) -> Seq<PadView> {
    v.map_values(|p: Pad| p@)
}

fn copy_pad(p: &Pad) -> (r: Pad)
    ensures
        r@ == p@,
{
    Pad { id: p.id.clone(), identity: p.identity.clone(), name: p.name.clone(), js: p.js, key: p.key.clone() }
}

fn pick_pads(p: &Vec<Pad>, order: &Vec<usize>) -> (r: Vec<Pad>)
    requires
        forall|i: int| 0 <= i < order@.len() ==> #[trigger] order@[i] < p@.len(),
    ensures
        pad_views(r@) == pick(pad_views(p@), order@.map_values(|x: usize| x as int)),
{
    let mut out: Vec<Pad> = Vec::new();
    let mut i: usize = 0;
    while i < order.len()
        invariant
            i <= order@.len(),
            forall|m: int| 0 <= m < order@.len() ==> #[trigger] order@[m] < p@.len(),
            pad_views(out@) == pick(pad_views(p@), order@.map_values(|x: usize| x as int)).take(i as int),
        decreases order@.len() - i,
    {
        let c = copy_pad(&p[order[i]]);
        assert(c@ == pad_views(p@)[order@[i as int] as int]);
        let ghost before = pad_views(out@);
        out.push(c);
        assert(pad_views(out@) =~= before.push(c@));
        i += 1;
        assert(pad_views(out@) =~= pick(pad_views(p@), order@.map_values(|x: usize| x as int)).take(i as int));
    }
    assert(pick(pad_views(p@), order@.map_values(|x: usize| x as int)).take(i as int) =~= pick(
        pad_views(p@),
        order@.map_values(|x: usize| x as int),
    ));
    out
}

fn base_chars(n: &NodeInfo) -> (r: Vec<char>)
    ensures
        r@ == base_of(n@),
{
    let s = slug_of(&chars_of(n.name.as_str()));
    if n.vendor.as_str().is_empty() && n.product.as_str().is_empty() {
        return s;
    }
    let mut v = chars_of(n.vendor.as_str());
    v.push(':');
    push_str(&mut v, n.product.as_str());
    v.push(':');
    push_chars(&mut v, &s);
    v
}

fn count_base(bases: &Vec<Vec<char>>, b: &Vec<char>) -> (r: usize)
    ensures
        r == occurrences(views(bases@), b@),
        r <= bases@.len(),
{
    let mut c: usize = 0;
    let mut j: usize = 0;
    assert(views(bases@).take(0) =~= Seq::<Seq<char>>::empty());
    while j < bases.len()
        invariant
            j <= bases@.len(),
            c <= j,
            c == occurrences(views(bases@).take(j as int), b@),
        decreases bases@.len() - j,
    {
        assert(views(bases@).take(j + 1).drop_last() =~= views(bases@).take(j as int));
        if crate::text::same_chars(&bases[j], b) {
            c += 1;
        }
        j += 1;
    }
    assert(views(bases@).take(j as int) =~= views(bases@));
    c
}

fn has_key(keys: &Vec<Vec<char>>, k: &Vec<char>) -> (r: bool)
    ensures
        r == views(keys@).contains(k@),
{
    let mut j: usize = 0;
    while j < keys.len()
        invariant
            j <= keys@.len(),
            forall|m: int| 0 <= m < j ==> views(keys@)[m] != k@,
        decreases keys@.len() - j,
    {
        if crate::text::same_chars(&keys[j], k) {
            assert(views(keys@)[j as int] == k@);
            return true;
        }
        j += 1;
    }
    false
}

proof fn lemma_identity_stable(s: Seq<NodeView>, n: NodeView, k: int)
    requires
        0 <= k < s.len(),
    ensures
        identity_at(s.push(n), k) == identity_at(s, k),
{
    assert(s.push(n).take(k + 1) =~= s.take(k + 1));
}

/// The gamepads among a directory's input nodes, one per device, each with
/// an identity no other pad shares, numbered densely from 0 in the order
/// RetroArch's udev driver gives them slots: numbered joystick nodes by
/// number, then the rest by node name.
pub fn detect(nodes: &Vec<NodeInfo>) -> (r: Vec<ControllerInfo>)
    ensures
        r@.len() == detect_spec(node_views(nodes@)).len(),
        forall|k: int|
            0 <= k < r@.len() ==> {
                let p = #[trigger] detect_spec(node_views(nodes@))[k];
                &&& r@[k].id@ == p.id
                &&& r@[k].identity@ == p.identity
                &&& r@[k].name@ == p.name
                &&& r@[k].player is None
                &&& r@[k].index == Some(k as usize)
            },
{
    let ghost nv = node_views(nodes@);
    // The order nodes are looked at in.
    let mut keys: Vec<SortKey> = Vec::new();
    let mut i: usize = 0;
    while i < nodes.len()
        invariant
            i <= nodes@.len(),
            nv == node_views(nodes@),
            keys@.map_values(|k: SortKey| k@) == nv.map_values(|n: NodeView| node_order_key(n)).take(i as int),
        decreases nodes@.len() - i,
    {
        let name = chars_of(nodes[i].file_name.as_str());
        let js = name.len() >= 2 && name[0] == 'j' && name[1] == 's';
        let k = match joystick_number(nodes[i].file_name.as_str()) {
            Some(j) => SortKey { tier: 0, num: j as u64, text: name },
            None => SortKey {
                tier: if js {
                    1
                } else {
                    2
                },
                num: 0,
                text: name,
            },
        };
        assert(nv[i as int] == nodes@[i as int]@);
        assert(k@ == node_order_key(nv[i as int]));
        let ghost before = keys@.map_values(|k: SortKey| k@);
        keys.push(k);
        assert(keys@.map_values(|k: SortKey| k@) =~= before.push(node_order_key(nv[i as int])));
        i += 1;
        assert(keys@.map_values(|k: SortKey| k@) =~= nv.map_values(|n: NodeView| node_order_key(n)).take(
            i as int,
        ));
    }
    assert(nv.map_values(|n: NodeView| node_order_key(n)).take(i as int) =~= nv.map_values(
        |n: NodeView| node_order_key(n),
    ));
    let order = sort_positions(&keys);
    let ghost ordered = in_node_order(nv);
    assert(ordered.len() == order@.len());
    // The gamepads, the first node of each device only.
    let ghost mut acc: Seq<NodeView> = Seq::empty();
    let mut acc_keys: Vec<Vec<char>> = Vec::new();
    let mut bases: Vec<Vec<char>> = Vec::new();
    let mut pads: Vec<Pad> = Vec::new();
    let mut t: usize = 0;
    assert(ordered.take(0) =~= Seq::<NodeView>::empty());
    while t < order.len()
        invariant
            t <= order@.len(),
            nv == node_views(nodes@),
            order@.len() == nodes@.len(),
            forall|m: int| 0 <= m < order@.len() ==> #[trigger] order@[m] < nodes@.len(),
            ordered == in_node_order(nv),
            ordered == pick(nv, order@.map_values(|p: usize| p as int)),
            acc == accepted(ordered.take(t as int)),
            views(acc_keys@) == keys_of(acc),
            views(bases@) == acc.map_values(|n: NodeView| base_of(n)),
            pad_views(pads@) == pads_of(acc),
            acc.len() <= t,
        decreases order@.len() - t,
    {
        let ghost prev = ordered.take(t as int);
        assert(ordered.take(t + 1).drop_last() =~= prev);
        let node = &nodes[order[t]];
        assert(ordered[t as int] == node@);
        let pad = has_key_bit(node.caps.as_str(), BTN_GAMEPAD) && !node.name.as_str().is_empty();
        let key: Vec<char> = match &node.device_key {
            Some(k) => chars_of(k.as_str()),
            None => chars_of(node.file_name.as_str()),
        };
        if pad && !has_key(&acc_keys, &key) {
            let b = base_chars(node);
            let ghost old_acc = acc;
            let ghost old_bases = views(bases@);
            let ghost bv = b@;
            bases.push(b);
            assert(views(bases@) =~= old_bases.push(bv));
            proof {
                acc = acc.push(node@);
            }
            assert(views(bases@) =~= acc.map_values(|n: NodeView| base_of(n)));
            let c = count_base(&bases, &bases[bases.len() - 1]);
            assert(acc.take(acc.len() as int) =~= acc);
            let ident: String = if c == 1 {
                string_from_chars(&bases[bases.len() - 1])
            } else {
                let mut v = bases[bases.len() - 1].clone();
                v.push('#');
                let d = decimal(c as u64);
                push_chars(&mut v, &d);
                string_from_chars(&v)
            };
            assert(ident@ == identity_at(acc, acc.len() - 1));
            let p = Pad {
                id: node.file_name.clone(),
                identity: ident,
                name: node.name.clone(),
                js: joystick_number(node.file_name.as_str()),
                key: key.clone(),
            };
            let ghost old_pads = pad_views(pads@);
            let ghost old_keys = views(acc_keys@);
            let ghost kv = key@;
            assert(kv == node@.key);
            let ghost pv = p@;
            assert(pv.js == joystick_spec(node@.file_name));
            assert(pv == pads_of(acc)[acc.len() - 1]);
            pads.push(p);
            assert(pad_views(pads@) =~= old_pads.push(pv));
            acc_keys.push(key);
            assert(views(acc_keys@) =~= old_keys.push(kv));
            assert(views(acc_keys@) =~= keys_of(acc));
            assert forall|k: int| 0 <= k < old_acc.len() implies identity_at(acc, k) == identity_at(old_acc, k) by {
                lemma_identity_stable(old_acc, node@, k);
            }
            assert(pad_views(pads@) =~= pads_of(acc));
        }
        t += 1;
    }
    assert(ordered.take(t as int) =~= ordered);
    // The order of their devices, then slot order.
    let mut k2: Vec<SortKey> = Vec::new();
    let mut j: usize = 0;
    while j < pads.len()
        invariant
            j <= pads@.len(),
            k2@.map_values(|k: SortKey| k@) == pad_views(pads@).map_values(
                |x: PadView| KeyView { tier: 0u8, num: 0u64, text: x.key },
            ).take(j as int),
        decreases pads@.len() - j,
    {
        let kk = SortKey { tier: 0, num: 0, text: pads[j].key.clone() };
        assert(pad_views(pads@)[j as int] == pads@[j as int]@);
        let ghost before = k2@.map_values(|k: SortKey| k@);
        let ghost kvv = kk@;
        k2.push(kk);
        assert(k2@.map_values(|k: SortKey| k@) =~= before.push(kvv));
        j += 1;
        assert(k2@.map_values(|k: SortKey| k@) =~= pad_views(pads@).map_values(
            |x: PadView| KeyView { tier: 0u8, num: 0u64, text: x.key },
        ).take(j as int));
    }
    assert(pad_views(pads@).map_values(|x: PadView| KeyView { tier: 0u8, num: 0u64, text: x.key }).take(
        j as int,
    ) =~= pad_views(pads@).map_values(|x: PadView| KeyView { tier: 0u8, num: 0u64, text: x.key }));
    let o2 = sort_positions(&k2);
    let pads2 = pick_pads(&pads, &o2);
    let mut k3: Vec<SortKey> = Vec::new();
    let mut j3: usize = 0;
    while j3 < pads2.len()
        invariant
            j3 <= pads2@.len(),
            k3@.map_values(|k: SortKey| k@) == pad_views(pads2@).map_values(|x: PadView| slot_key(x)).take(
                j3 as int,
            ),
        decreases pads2@.len() - j3,
    {
        let k = match pads2[j3].js {
            Some(n) => SortKey { tier: 0, num: n as u64, text: Vec::new() },
            None => SortKey { tier: 1, num: 0, text: chars_of(pads2[j3].id.as_str()) },
        };
        assert(pad_views(pads2@)[j3 as int] == pads2@[j3 as int]@);
        assert(k@ == slot_key(pads2@[j3 as int]@));
        let ghost before = k3@.map_values(|k: SortKey| k@);
        let ghost kvv = k@;
        k3.push(k);
        assert(k3@.map_values(|k: SortKey| k@) =~= before.push(kvv));
        j3 += 1;
        assert(k3@.map_values(|k: SortKey| k@) =~= pad_views(pads2@).map_values(|x: PadView| slot_key(x)).take(
            j3 as int,
        ));
    }
    assert(pad_views(pads2@).map_values(|x: PadView| slot_key(x)).take(j3 as int) =~= pad_views(
        pads2@,
    ).map_values(|x: PadView| slot_key(x)));
    let o3 = sort_positions(&k3);
    let pads3 = pick_pads(&pads2, &o3);
    let ghost spec = detect_spec(nv);
    assert(pad_views(pads3@) == spec);
    // Slots, densely from 0.
    let mut out: Vec<ControllerInfo> = Vec::new();
    let mut m: usize = 0;
    while m < pads3.len()
        invariant
            m <= pads3@.len(),
            pad_views(pads3@) == spec,
            out@.len() == m,
            forall|k: int|
                0 <= k < m ==> {
                    &&& (#[trigger] out@[k]).id@ == spec[k].id
                    &&& out@[k].identity@ == spec[k].identity
                    &&& out@[k].name@ == spec[k].name
                    &&& out@[k].player is None
                    &&& out@[k].index == Some(k as usize)
                },
        decreases pads3@.len() - m,
    {
        let p = &pads3[m];
        assert(pad_views(pads3@)[m as int] == p@);
        out.push(
            ControllerInfo {
                id: p.id.clone(),
                identity: p.identity.clone(),
                name: p.name.clone(),
                player: None,
                index: Some(m),
            },
        );
        m += 1;
    }
    out
}


/// Where input nodes are read from: sysfs's `/sys/class/input`, or a
/// directory standing in for it.
pub struct Input {
    root: String,
}

/// The directory sysfs lists input nodes in.
pub const SYSFS_INPUT: &'static str = "/sys/class/input";

impl Input {
    /// The directory this reads input nodes from.
    pub closed spec fn root_spec(&self) -> Seq<char> {
        self.root@
    }

    /// Input read from `DEN_SYSFS_INPUT` when it is set, otherwise from
    /// sysfs.
    pub fn new(env_root: Option<String>) -> (r: Input)
        ensures
            r.root_spec() == match env_root {
                Some(d) => d@,
                None => SYSFS_INPUT@,
            },
    {
        match env_root {
            Some(d) => Input { root: d },
            None => Input { root: SYSFS_INPUT.to_owned() },
        }
    }

    /// Input read from another directory.
    pub fn with_root(root: String) -> (r: Input)
        ensures
            r.root_spec() == root@,
    {
        Input { root }
    }

    /// The directory to read the nodes from.
    pub fn root(&self) -> (r: &str)
        ensures
            r@ == self.root_spec(),
    {
        self.root.as_str()
    }

    /// The controllers among the nodes read from this input's directory.
    pub fn controllers(&self, nodes: &Vec<NodeInfo>) -> (r: Vec<ControllerInfo>)
        ensures
            r@.len() == detect_spec(node_views(nodes@)).len(),
            forall|k: int|
                0 <= k < r@.len() ==> {
                    let p = #[trigger] detect_spec(node_views(nodes@))[k];
                    &&& r@[k].id@ == p.id
                    &&& r@[k].identity@ == p.identity
                    &&& r@[k].name@ == p.name
                    &&& r@[k].player is None
                    &&& r@[k].index == Some(k as usize)
                },
    {
        detect(nodes)
    }
}


/// No position occurs twice.
pub open spec fn distinct_positions(s: Seq<int>) -> bool {
    forall|i: int, j: int| 0 <= i < j < s.len() ==> s[i] != s[j]
}

proof fn lemma_ins_keeps(s: Seq<int>, x: int, keys: Seq<KeyView>, n: int)
    requires
        distinct_positions(s),
        !s.contains(x),
        forall|i: int| 0 <= i < s.len() ==> 0 <= #[trigger] s[i] < n,
        0 <= x < n,
    ensures
        crate::order::ins(s, x, keys).len() == s.len() + 1,
        distinct_positions(crate::order::ins(s, x, keys)),
        forall|y: int| #[trigger] crate::order::ins(s, x, keys).contains(y) <==> (s.contains(y) || y == x),
        forall|i: int|
            0 <= i < crate::order::ins(s, x, keys).len() ==> 0 <= #[trigger] crate::order::ins(s, x, keys)[i] < n,
    decreases s.len(),
{
    broadcast use vstd::seq_lib::lemma_seq_contains_after_push;

    let t = crate::order::ins(s, x, keys);
    if s.len() == 0 {
        assert(t == seq![x]);
        assert forall|y: int| #[trigger] t.contains(y) <==> (s.contains(y) || y == x) by {
            if t.contains(y) {
                let k = choose|k: int| 0 <= k < t.len() && t[k] == y;
                assert(k == 0);
            }
            if y == x {
                assert(t[0] == x);
            }
        }
    } else if crate::order::key_lt(keys[x], keys[s[0]]) {
        assert(t == seq![x] + s);
        assert forall|y: int| #[trigger] t.contains(y) <==> (s.contains(y) || y == x) by {
            if t.contains(y) {
                let k = choose|k: int| 0 <= k < t.len() && t[k] == y;
                if k > 0 {
                    assert(s[k - 1] == y);
                }
            }
            if s.contains(y) {
                let k = choose|k: int| 0 <= k < s.len() && s[k] == y;
                assert(t[k + 1] == y);
            }
            if y == x {
                assert(t[0] == x);
            }
        }
        assert forall|i: int, j: int| 0 <= i < j < t.len() implies t[i] != t[j] by {
            if i == 0 {
                assert(t[j] == s[j - 1]);
            } else {
                assert(t[i] == s[i - 1] && t[j] == s[j - 1]);
            }
        }
    } else {
        let rest = s.drop_first();
        assert(distinct_positions(rest)) by {
            assert forall|i: int, j: int| 0 <= i < j < rest.len() implies rest[i] != rest[j] by {
                assert(rest[i] == s[i + 1] && rest[j] == s[j + 1]);
            }
        }
        assert(!rest.contains(x)) by {
            if rest.contains(x) {
                let k = choose|k: int| 0 <= k < rest.len() && rest[k] == x;
                assert(s[k + 1] == x);
            }
        }
        assert forall|i: int| 0 <= i < rest.len() implies 0 <= #[trigger] rest[i] < n by {
            assert(rest[i] == s[i + 1]);
        }
        lemma_ins_keeps(rest, x, keys, n);
        let u = crate::order::ins(rest, x, keys);
        assert(t == seq![s[0]] + u);
        assert(!u.contains(s[0])) by {
            if u.contains(s[0]) {
                if rest.contains(s[0]) {
                    let k = choose|k: int| 0 <= k < rest.len() && rest[k] == s[0];
                    assert(s[k + 1] == s[0]);
                } else {
                    assert(s[0] == x);
                    assert(s.contains(x));
                }
            }
        }
        assert forall|y: int| #[trigger] t.contains(y) <==> (s.contains(y) || y == x) by {
            if t.contains(y) {
                let k = choose|k: int| 0 <= k < t.len() && t[k] == y;
                if k > 0 {
                    assert(u[k - 1] == y);
                    assert(u.contains(y));
                    if rest.contains(y) {
                        let m = choose|m: int| 0 <= m < rest.len() && rest[m] == y;
                        assert(s[m + 1] == y);
                    }
                } else {
                    assert(s[0] == y);
                }
            }
            if s.contains(y) {
                let k = choose|k: int| 0 <= k < s.len() && s[k] == y;
                if k == 0 {
                    assert(t[0] == y);
                } else {
                    assert(rest[k - 1] == y);
                    assert(u.contains(y));
                    let m = choose|m: int| 0 <= m < u.len() && u[m] == y;
                    assert(t[m + 1] == y);
                }
            }
            if y == x {
                assert(u.contains(x));
                let m = choose|m: int| 0 <= m < u.len() && u[m] == x;
                assert(t[m + 1] == x);
            }
        }
        assert forall|i: int, j: int| 0 <= i < j < t.len() implies t[i] != t[j] by {
            if i == 0 {
                assert(t[j] == u[j - 1]);
                assert(u.contains(u[j - 1]));
            } else {
                assert(t[i] == u[i - 1] && t[j] == u[j - 1]);
            }
        }
        assert forall|i: int| 0 <= i < t.len() implies 0 <= #[trigger] t[i] < n by {
            if i > 0 {
                assert(t[i] == u[i - 1]);
            }
        }
    }
}

/// Sorting loses and repeats nothing: the sorted positions of `n` keys are
/// each position below `n` exactly once.
pub proof fn lemma_sorted_positions_permute(n: nat, keys: Seq<KeyView>)
    ensures
        sorted_positions(n, keys).len() == n,
        distinct_positions(sorted_positions(n, keys)),
        forall|i: int| 0 <= i < n ==> 0 <= #[trigger] sorted_positions(n, keys)[i] < n,
    decreases n,
{
    if n > 0 {
        let m = (n - 1) as nat;
        lemma_sorted_positions_permute(m, keys);
        let s = sorted_positions(m, keys);
        assert(!s.contains(m as int)) by {
            if s.contains(m as int) {
                let k = choose|k: int| 0 <= k < s.len() && s[k] == m as int;
                assert(s[k] < m);
            }
        }
        assert forall|i: int| 0 <= i < s.len() implies 0 <= #[trigger] s[i] < n by {
            assert(s[i] < m);
        }
        lemma_ins_keeps(s, m as int, keys, n as int);
    }
}

/// The devices of a list of pads.
pub open spec fn pad_keys(s: Seq<PadView>) -> Seq<Seq<char>> {
    s.map_values(|p: PadView| p.key)
}

proof fn lemma_accepted_one_per_device(s: Seq<NodeView>)
    ensures
        crate::locate::no_repeats(keys_of(accepted(s))),
    decreases s.len(),
{
    if s.len() > 0 {
        lemma_accepted_one_per_device(s.drop_last());
        let r = accepted(s.drop_last());
        let n = s.last();
        if is_pad(n) && !keys_of(r).contains(n.key) {
            let k = keys_of(r.push(n));
            assert(k =~= keys_of(r).push(n.key));
            assert forall|i: int, j: int| 0 <= i < j < k.len() implies k[i] != k[j] by {
                if j == k.len() - 1 {
                    assert(k[i] == keys_of(r)[i]);
                    if k[i] == k[j] {
                        assert(keys_of(r).contains(n.key));
                    }
                } else {
                    assert(k[i] == keys_of(r)[i] && k[j] == keys_of(r)[j]);
                }
            }
        }
    }
}

proof fn lemma_pick_keeps_devices_apart(p: Seq<PadView>, order: Seq<int>)
    requires
        crate::locate::no_repeats(pad_keys(p)),
        distinct_positions(order),
        forall|i: int| 0 <= i < order.len() ==> 0 <= #[trigger] order[i] < p.len(),
    ensures
        crate::locate::no_repeats(pad_keys(pick(p, order))),
{
    let q = pad_keys(pick(p, order));
    assert forall|i: int, j: int| 0 <= i < j < q.len() implies q[i] != q[j] by {
        assert(q[i] == pad_keys(p)[order[i]]);
        assert(q[j] == pad_keys(p)[order[j]]);
        assert(order[i] != order[j]);
        if order[i] < order[j] {
        } else {
        }
    }
}

/// One pad per device: a device seen through several nodes (its joystick
/// node and its event node) is one pad.
pub proof fn lemma_one_pad_per_device(nodes: Seq<NodeView>)
    ensures
        crate::locate::no_repeats(pad_keys(detect_spec(nodes))),
{
    let acc = accepted(in_node_order(nodes));
    lemma_accepted_one_per_device(in_node_order(nodes));
    let p0 = pads_of(acc);
    assert(pad_keys(p0) =~= keys_of(acc));
    let k1 = p0.map_values(|x: PadView| KeyView { tier: 0u8, num: 0u64, text: x.key });
    lemma_sorted_positions_permute(p0.len(), k1);
    lemma_pick_keeps_devices_apart(p0, sorted_positions(p0.len(), k1));
    let p1 = by_device(p0);
    let k2 = p1.map_values(|x: PadView| slot_key(x));
    lemma_sorted_positions_permute(p1.len(), k2);
    lemma_pick_keeps_devices_apart(p1, sorted_positions(p1.len(), k2));
}


/// Whether a character is a decimal digit.
pub open spec fn is_digit(c: char) -> bool {
    '0' <= c && c <= '9'
}

proof fn lemma_dec_digits(n: nat)
    ensures
        dec(n).len() >= 1,
        forall|i: int| 0 <= i < dec(n).len() ==> is_digit(#[trigger] dec(n)[i]),
    decreases n,
{
    if n >= 10 {
        lemma_dec_digits(n / 10);
        let d = dec(n / 10);
        assert forall|i: int| 0 <= i < dec(n).len() implies is_digit(#[trigger] dec(n)[i]) by {
            if i < d.len() {
                assert(dec(n)[i] == d[i]);
            }
        }
    }
}

proof fn lemma_digit_injective(x: nat, y: nat)
    requires
        x < 10,
        y < 10,
        digit(x) == digit(y),
    ensures
        x == y,
{
}

proof fn lemma_dec_injective(a: nat, b: nat)
    requires
        dec(a) == dec(b),
    ensures
        a == b,
    decreases a,
{
    lemma_dec_digits(a);
    lemma_dec_digits(b);
    if a < 10 && b < 10 {
        assert(dec(a) == seq![digit(a)]);
        assert(dec(b) == seq![digit(b)]);
        assert(dec(a)[0] == dec(b)[0]);
        assert(seq![digit(a)][0] == digit(a));
        assert(dec(a)[0] == digit(a));
        assert(dec(b)[0] == digit(b));
        assert(digit(a) == digit(b));
        lemma_digit_injective(a, b);
    } else if a < 10 {
        lemma_dec_digits(b / 10);
        assert(dec(b).len() >= 2);
    } else if b < 10 {
        lemma_dec_digits(a / 10);
        assert(dec(a).len() >= 2);
    } else {
        assert(dec(a) == dec(a / 10).push(digit(a % 10)));
        assert(dec(b) == dec(b / 10).push(digit(b % 10)));
        assert(dec(a).last() == dec(b).last());
        assert(dec(a).drop_last() =~= dec(a / 10));
        assert(dec(b).drop_last() =~= dec(b / 10));
        lemma_dec_injective(a / 10, b / 10);
        assert(dec(a).last() == digit(a % 10));
        assert(dec(b).last() == digit(b % 10));
        lemma_digit_injective(a % 10, b % 10);
        assert(a == 10 * (a / 10) + a % 10);
        assert(b == 10 * (b / 10) + b % 10);
    }
}

/// Whether every `#` of a text has a `:` somewhere after it.
pub open spec fn hashes_closed(b: Seq<char>) -> bool {
    forall|q: int| 0 <= q < b.len() && #[trigger] b[q] == '#' ==> exists|r: int| q < r < b.len() && b[r] == ':'
}

/// A `#` with no `:` after it.
pub open spec fn open_hash(j: Seq<char>, q: int) -> bool {
    0 <= q < j.len() && j[q] == '#' && forall|r: int| q < r < j.len() ==> j[r] != ':'
}

/// Whether no character is `#` or `:`.
pub open spec fn plain_chars(s: Seq<char>) -> bool {
    forall|i: int| 0 <= i < s.len() ==> #[trigger] s[i] != '#' && s[i] != ':'
}

proof fn lemma_trim_char_plain(s: Seq<char>, c: char)
    requires
        plain_chars(s),
    ensures
        plain_chars(trim_char(s, c)),
{
    lemma_trim_char_start_plain(s, c);
    lemma_trim_char_end_plain(trim_char_start(s, c), c);
}

proof fn lemma_trim_char_start_plain(s: Seq<char>, c: char)
    requires
        plain_chars(s),
    ensures
        plain_chars(trim_char_start(s, c)),
    decreases s.len(),
{
    if s.len() > 0 && s[0] == c {
        assert(plain_chars(s.drop_first())) by {
            assert forall|i: int| 0 <= i < s.drop_first().len() implies #[trigger] s.drop_first()[i] != '#'
                && s.drop_first()[i] != ':' by {
                assert(s.drop_first()[i] == s[i + 1]);
            }
        }
        lemma_trim_char_start_plain(s.drop_first(), c);
    }
}

proof fn lemma_trim_char_end_plain(s: Seq<char>, c: char)
    requires
        plain_chars(s),
    ensures
        plain_chars(trim_char_end(s, c)),
    decreases s.len(),
{
    if s.len() > 0 && s.last() == c {
        assert(plain_chars(s.drop_last())) by {
            assert forall|i: int| 0 <= i < s.drop_last().len() implies #[trigger] s.drop_last()[i] != '#'
                && s.drop_last()[i] != ':' by {
                assert(s.drop_last()[i] == s[i]);
            }
        }
        lemma_trim_char_end_plain(s.drop_last(), c);
    }
}

proof fn lemma_slug_plain(name: Seq<char>)
    ensures
        plain_chars(slug(name)),
{
    let m = name.map_values(|c: char| dashed(lower(c)));
    assert forall|i: int| 0 <= i < m.len() implies #[trigger] m[i] != '#' && m[i] != ':' by {
        assert(m[i] == dashed(lower(name[i])));
    }
    lemma_trim_char_plain(m, '-');
}

proof fn lemma_base_closed(n: NodeView)
    ensures
        hashes_closed(base_of(n)),
{
    lemma_slug_plain(n.name);
    let sl = slug(n.name);
    let b = base_of(n);
    if n.vendor.len() == 0 && n.product.len() == 0 {
        assert forall|q: int| 0 <= q < b.len() && #[trigger] b[q] == '#' implies exists|r: int|
            q < r < b.len() && b[r] == ':' by {
            assert(b[q] == sl[q]);
        }
    } else {
        let v = n.vendor;
        let p = n.product;
        assert(b =~= v + seq![':'] + p + seq![':'] + sl);
        let c1 = v.len() as int;
        let c2 = (v.len() + 1 + p.len()) as int;
        assert(b[c1] == ':');
        assert(b[c2] == ':');
        assert forall|q: int| 0 <= q < b.len() && #[trigger] b[q] == '#' implies exists|r: int|
            q < r < b.len() && b[r] == ':' by {
            if q >= c2 + 1 {
                assert(b[q] == sl[q - c2 - 1]);
            } else if q < c1 {
                assert(c1 < b.len() && b[c1] == ':');
            } else {
                assert(q != c1 && q != c2);
                assert(c2 < b.len() && b[c2] == ':');
            }
        }
    }
}

proof fn lemma_closed_has_no_open_hash(b: Seq<char>, q: int)
    requires
        hashes_closed(b),
    ensures
        !open_hash(b, q),
{
    if open_hash(b, q) {
        assert(b[q] == '#');
        let r = choose|r: int| q < r < b.len() && b[r] == ':';
        assert(b[r] != ':');
    }
}

proof fn lemma_tagged_open_hash(b: Seq<char>, d: Seq<char>, q: int)
    requires
        hashes_closed(b),
        forall|i: int| 0 <= i < d.len() ==> is_digit(#[trigger] d[i]),
    ensures
        open_hash(b + seq!['#'] + d, q) <==> q == b.len(),
{
    let j = b + seq!['#'] + d;
    if q == b.len() {
        assert(j[q] == '#');
        assert forall|r: int| q < r < j.len() implies j[r] != ':' by {
            assert(j[r] == d[r - b.len() - 1]);
        }
    } else if open_hash(j, q) {
        if q > b.len() {
            assert(j[q] == d[q - b.len() - 1]);
        } else {
            assert(j[q] == b[q]);
            assert(b[q] == '#');
            let r = choose|r: int| q < r < b.len() && b[r] == ':';
            assert(j[r] == b[r]);
        }
    }
}

proof fn lemma_occurrences_step(s: Seq<Seq<char>>, k: int, b: Seq<char>)
    requires
        0 <= k < s.len(),
    ensures
        occurrences(s.take(k + 1), b) == occurrences(s.take(k), b) + if s[k] == b {
            1nat
        } else {
            0nat
        },
{
    assert(s.take(k + 1).drop_last() =~= s.take(k));
}

proof fn lemma_occurrences_grow(s: Seq<Seq<char>>, i: int, j: int, b: Seq<char>)
    requires
        0 <= i <= j <= s.len(),
    ensures
        occurrences(s.take(j), b) >= occurrences(s.take(i), b),
    decreases j - i,
{
    if i < j {
        lemma_occurrences_grow(s, i, j - 1, b);
        lemma_occurrences_step(s, j - 1, b);
    }
}

/// The identity of the `k`th pad, written with the bases of all pads.
proof fn lemma_identity_counts(acc: Seq<NodeView>, k: int)
    requires
        0 <= k < acc.len(),
    ensures
        acc.take(k + 1).map_values(|n: NodeView| base_of(n)) == acc.map_values(|n: NodeView| base_of(n)).take(k + 1),
{
    assert(acc.take(k + 1).map_values(|n: NodeView| base_of(n)) =~= acc.map_values(|n: NodeView| base_of(n)).take(
        k + 1,
    ));
}

proof fn lemma_identities_differ(acc: Seq<NodeView>, i: int, j: int)
    requires
        0 <= i < j < acc.len(),
    ensures
        identity_at(acc, i) != identity_at(acc, j),
{
    let bs = acc.map_values(|n: NodeView| base_of(n));
    lemma_identity_counts(acc, i);
    lemma_identity_counts(acc, j);
    let bi = base_of(acc[i]);
    let bj = base_of(acc[j]);
    assert(bs[i] == bi && bs[j] == bj);
    let ci = occurrences(bs.take(i + 1), bi);
    let cj = occurrences(bs.take(j + 1), bj);
    lemma_occurrences_step(bs, i, bi);
    lemma_occurrences_step(bs, j, bj);
    lemma_base_closed(acc[i]);
    lemma_base_closed(acc[j]);
    lemma_dec_digits(ci);
    lemma_dec_digits(cj);
    let ii = identity_at(acc, i);
    let ij = identity_at(acc, j);
    if bi == bj {
        lemma_occurrences_grow(bs, i + 1, j, bi);
        assert(cj >= ci + 1);
        if ci == 1 {
            assert(ij.len() > bi.len());
        } else {
            if ii == ij {
                let t = (bi.len() + 1) as int;
                assert(ii.skip(t) =~= dec(ci));
                assert(ij.skip(t) =~= dec(cj));
                lemma_dec_injective(ci, cj);
            }
        }
    } else {
        if ci == 1 && cj == 1 {
        } else if ci == 1 {
            if ii == ij {
                lemma_tagged_open_hash(bj, dec(cj), bj.len() as int);
                lemma_closed_has_no_open_hash(bi, bj.len() as int);
            }
        } else if cj == 1 {
            if ii == ij {
                lemma_tagged_open_hash(bi, dec(ci), bi.len() as int);
                lemma_closed_has_no_open_hash(bj, bi.len() as int);
            }
        } else {
            if ii == ij {
                lemma_tagged_open_hash(bi, dec(ci), bi.len() as int);
                lemma_tagged_open_hash(bj, dec(cj), bi.len() as int);
                assert(bi.len() == bj.len());
                assert(ii.take(bi.len() as int) =~= bi);
                assert(ij.take(bj.len() as int) =~= bj);
            }
        }
    }
}

/// The identities of a list of pads.
pub open spec fn pad_identities(s: Seq<PadView>) -> Seq<Seq<char>> {
    s.map_values(|p: PadView| p.identity)
}

proof fn lemma_pick_keeps_identities_apart(p: Seq<PadView>, order: Seq<int>)
    requires
        crate::locate::no_repeats(pad_identities(p)),
        distinct_positions(order),
        forall|i: int| 0 <= i < order.len() ==> 0 <= #[trigger] order[i] < p.len(),
    ensures
        crate::locate::no_repeats(pad_identities(pick(p, order))),
{
    let q = pad_identities(pick(p, order));
    assert forall|i: int, j: int| 0 <= i < j < q.len() implies q[i] != q[j] by {
        assert(q[i] == pad_identities(p)[order[i]]);
        assert(q[j] == pad_identities(p)[order[j]]);
        assert(order[i] != order[j]);
        if order[i] < order[j] {
        } else {
        }
    }
}

/// No two detected pads share an identity, even two of the same model: the
/// identities a detection reports are all different.
pub proof fn lemma_identities_distinct(nodes: Seq<NodeView>)
    ensures
        crate::locate::no_repeats(pad_identities(detect_spec(nodes))),
{
    let acc = accepted(in_node_order(nodes));
    let p0 = pads_of(acc);
    assert forall|i: int, j: int| 0 <= i < j < pad_identities(p0).len() implies pad_identities(p0)[i]
        != pad_identities(p0)[j] by {
        lemma_identities_differ(acc, i, j);
    }
    let k1 = p0.map_values(|x: PadView| KeyView { tier: 0u8, num: 0u64, text: x.key });
    lemma_sorted_positions_permute(p0.len(), k1);
    lemma_pick_keeps_identities_apart(p0, sorted_positions(p0.len(), k1));
    let p1 = by_device(p0);
    let k2 = p1.map_values(|x: PadView| slot_key(x));
    lemma_sorted_positions_permute(p1.len(), k2);
    lemma_pick_keeps_identities_apart(p1, sorted_positions(p1.len(), k2));
}

} // verus!
