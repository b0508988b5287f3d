//! The private RetroArch configuration written for each session.

use vstd::prelude::*;
use crate::text::{chars_of, contains_seq, dec, decimal, lines, lines_chars, occurs_at, push_chars, push_str, same_chars,
    split_once, split_once_chars, string_from_chars, trim, trim_chars, views};

verus! {

broadcast use vstd::string::group_string_axioms;

/// A player and the joypad RetroArch should read for them.
#[derive(Debug, Clone, Copy)]
pub struct PlayerBinding {
    pub player: usize,
    pub joypad_index: Option<usize>,
}

/// How many players Den drives.
pub const MAX_PLAYERS: usize = 4;

/// Player one's keyboard: (RetroArch button, key, what the key is called).
pub open spec fn scheme_spec() -> Seq<(Seq<char>, Seq<char>, Seq<char>)> {
    seq![
        ("up"@, "up"@, "Up"@),
        ("down"@, "down"@, "Down"@),
        ("left"@, "left"@, "Left"@),
        ("right"@, "right"@, "Right"@),
        ("b"@, "z"@, "Z"@),
        ("a"@, "x"@, "X"@),
        ("y"@, "a"@, "A"@),
        ("x"@, "s"@, "S"@),
        ("l"@, "q"@, "Q"@),
        ("r"@, "w"@, "W"@),
        ("start"@, "enter"@, "Enter"@),
        ("select"@, "rshift"@, "Right Shift"@),
    ]
}

/// The keys that get a player out of a game and around RetroArch:
/// (setting, key, what the key is called).
pub open spec fn chrome_spec() -> Seq<(Seq<char>, Seq<char>, Seq<char>)> {
    seq![
        ("input_menu_toggle"@, "f1"@, "F1"@),
        ("input_exit_emulator"@, "escape"@, "Escape"@),
        ("input_save_state"@, "f2"@, "F2"@),
        ("input_load_state"@, "f4"@, "F4"@),
        ("input_toggle_fullscreen"@, "f11"@, "F11"@),
    ]
}

pub open spec fn triples(v: Seq<(&str, &str, &str)>) -> Seq<(Seq<char>, Seq<char>, Seq<char>)> {
    v.map_values(|t: (&str, &str, &str)| (t.0@, t.1@, t.2@))
}

pub fn keyboard_scheme() -> (r: [(&'static str, &'static str, &'static str); 12])
    ensures
        triples(r@) == scheme_spec(),
{
    let r = [
        ("up", "up", "Up"),
        ("down", "down", "Down"),
        ("left", "left", "Left"),
        ("right", "right", "Right"),
        ("b", "z", "Z"),
        ("a", "x", "X"),
        ("y", "a", "A"),
        ("x", "s", "S"),
        ("l", "q", "Q"),
        ("r", "w", "W"),
        ("start", "enter", "Enter"),
        ("select", "rshift", "Right Shift"),
    ];
    assert(triples(r@) =~= scheme_spec());
    r
}

pub fn keyboard_chrome() -> (r: [(&'static str, &'static str, &'static str); 5])
    ensures
        triples(r@) == chrome_spec(),
{
    let r = [
        ("input_menu_toggle", "f1", "F1"),
        ("input_exit_emulator", "escape", "Escape"),
        ("input_save_state", "f2", "F2"),
        ("input_load_state", "f4", "F4"),
        ("input_toggle_fullscreen", "f11", "F11"),
    ];
    assert(triples(r@) =~= chrome_spec());
    r
}

/// Every key Den sets itself, so that a setting from the person's own
/// configuration under one of these names is left out rather than set twice.
pub open spec fn den_keys_spec() -> Seq<Seq<char>> {
    seq![
        "video_fullscreen"@,
        "input_autodetect_enable"@,
        "savestate_auto_save"@,
        "savestate_auto_load"@,
        "savestate_auto_save_interval"@,
        "savefile_directory"@,
        "savestate_directory"@,
        "rgui_show_start_screen"@,
        "libretro_directory"@,
        "input_max_users"@,
        "input_player1_joypad_index"@,
        "input_player2_joypad_index"@,
        "input_player3_joypad_index"@,
        "input_player4_joypad_index"@,
        "input_player1_up"@,
        "input_player1_down"@,
        "input_player1_left"@,
        "input_player1_right"@,
        "input_player1_b"@,
        "input_player1_a"@,
        "input_player1_y"@,
        "input_player1_x"@,
        "input_player1_l"@,
        "input_player1_r"@,
        "input_player1_start"@,
        "input_player1_select"@,
        "input_menu_toggle"@,
        "input_exit_emulator"@,
        "input_save_state"@,
        "input_load_state"@,
        "input_toggle_fullscreen"@,
    ]
}

pub fn den_keys() -> (r: Vec<Vec<char>>)
    ensures
        views(r@) == den_keys_spec(),
{
    let names: [&str; 31] = [
        "video_fullscreen",
        "input_autodetect_enable",
        "savestate_auto_save",
        "savestate_auto_load",
        "savestate_auto_save_interval",
        "savefile_directory",
        "savestate_directory",
        "rgui_show_start_screen",
        "libretro_directory",
        "input_max_users",
        "input_player1_joypad_index",
        "input_player2_joypad_index",
        "input_player3_joypad_index",
        "input_player4_joypad_index",
        "input_player1_up",
        "input_player1_down",
        "input_player1_left",
        "input_player1_right",
        "input_player1_b",
        "input_player1_a",
        "input_player1_y",
        "input_player1_x",
        "input_player1_l",
        "input_player1_r",
        "input_player1_start",
        "input_player1_select",
        "input_menu_toggle",
        "input_exit_emulator",
        "input_save_state",
        "input_load_state",
        "input_toggle_fullscreen",
    ];
    assert(names@.map_values(|s: &str| s@) =~= den_keys_spec());
    let mut out: Vec<Vec<char>> = Vec::new();
    let mut i: usize = 0;
    while i < 31
        invariant
            i <= 31,
            names@.map_values(|s: &str| s@) == den_keys_spec(),
            views(out@) == den_keys_spec().take(i as int),
        decreases 31 - i,
    {
        assert(den_keys_spec()[i as int] == names@[i as int]@);
        let ghost before = views(out@);
        let k = chars_of(names[i]);
        out.push(k);
        assert(views(out@) =~= before.push(k@));
        i += 1;
        assert(views(out@) =~= den_keys_spec().take(i as int));
    }
    assert(den_keys_spec().take(31) =~= den_keys_spec());
    out
}

/// The key a configuration line sets: what stands before its first `=`,
/// trimmed, or nothing.
pub open spec fn line_key(l: Seq<char>) -> Seq<char> {
    match split_once(l, '=') {
        Some((k, _)) => trim(k),
        None => Seq::<char>::empty(),
    }
}

/// The person's lines Den keeps, each ended by a newline.
pub open spec fn kept_lines(ls: Seq<Seq<char>>, keys: Seq<Seq<char>>) -> Seq<char>
    decreases ls.len(),
{
    if ls.len() == 0 {
        Seq::<char>::empty()
    } else {
        kept_lines(ls.drop_last(), keys) + if keys.contains(line_key(ls.last())) {
            Seq::<char>::empty()
        } else {
            ls.last() + seq!['\n']
        }
    }
}

/// The settings a person's own configuration contributes: every line but
/// those setting a key Den sets, then a blank line.
pub open spec fn inherited_spec(theirs: Option<Seq<char>>) -> Seq<char> {
    match theirs {
        None => Seq::<char>::empty(),
        Some(t) => kept_lines(lines(t), den_keys_spec()) + seq!['\n'],
    }
}

/// `key = "value"` and a newline.
pub open spec fn setting(key: Seq<char>, value: Seq<char>) -> Seq<char> {
    key + " = \""@ + value + "\"\n"@
}

/// The session settings Den always writes.
pub open spec fn session_spec(save_dir: Seq<char>, state_dir: Seq<char>, core_dir: Option<Seq<char>>) -> Seq<
    char,
> {
    setting("video_fullscreen"@, "true"@) + setting("input_autodetect_enable"@, "true"@) + setting(
        "savestate_auto_save"@,
        "true"@,
    ) + setting("savestate_auto_load"@, "false"@) + setting("savestate_auto_save_interval"@, "60"@)
        + setting("savefile_directory"@, save_dir) + setting("savestate_directory"@, state_dir)
        + setting("rgui_show_start_screen"@, "false"@) + match core_dir {
        None => Seq::<char>::empty(),
        Some(d) => setting("libretro_directory"@, d),
    }
}

/// One line per player that has a joypad.
pub open spec fn players_spec(players: Seq<PlayerBinding>) -> Seq<char>
    decreases players.len(),
{
    if players.len() == 0 {
        Seq::<char>::empty()
    } else {
        let b = players.last();
        players_spec(players.drop_last()) + match b.joypad_index {
            None => Seq::<char>::empty(),
            Some(i) => setting(
                "input_player"@ + dec(b.player as nat) + "_joypad_index"@,
                dec(i as nat),
            ),
        }
    }
}

/// Player one's button lines, one per row of a keyboard table.
pub open spec fn button_lines(rows: Seq<(Seq<char>, Seq<char>, Seq<char>)>) -> Seq<char>
    decreases rows.len(),
{
    if rows.len() == 0 {
        Seq::<char>::empty()
    } else {
        button_lines(rows.drop_last()) + setting("input_player1_"@ + rows.last().0, rows.last().1)
    }
}

/// The hotkey lines, one per row of a table of them.
pub open spec fn chrome_lines(rows: Seq<(Seq<char>, Seq<char>, Seq<char>)>) -> Seq<char>
    decreases rows.len(),
{
    if rows.len() == 0 {
        Seq::<char>::empty()
    } else {
        chrome_lines(rows.drop_last()) + setting(rows.last().0, rows.last().1)
    }
}

/// The keyboard lines: player one's buttons, then the chrome keys.
pub open spec fn keys_spec() -> Seq<char> {
    button_lines(scheme_spec()) + chrome_lines(chrome_spec())
}

/// The whole configuration a session runs with.
pub open spec fn config_spec(
    save_dir: Seq<char>,
    state_dir: Seq<char>,
    core_dir: Option<Seq<char>>,
    theirs: Option<Seq<char>>,
    players: Seq<PlayerBinding>,
) -> Seq<char> {
    inherited_spec(theirs) + session_spec(save_dir, state_dir, core_dir) + seq!['\n'] + setting(
        "input_max_users"@,
        dec(MAX_PLAYERS as nat),
    ) + players_spec(players) + seq!['\n'] + keys_spec()
}

fn push_setting(out: &mut Vec<char>, key: &[char], value: &[char])
    ensures
        final(out)@ == old(out)@ + setting(key@, value@),
{
    push_chars(out, key);
    push_str(out, " = \"");
    push_chars(out, value);
    push_str(out, "\"\n");
    assert(final(out)@ =~= old(out)@ + setting(key@, value@));
}

fn push_setting_lit(out: &mut Vec<char>, key: &str, value: &str)
    ensures
        final(out)@ == old(out)@ + setting(key@, value@),
{
    push_setting(out, &chars_of(key), &chars_of(value));
}

fn is_den_key(keys: &Vec<Vec<char>>, k: &[char]) -> (r: bool)
    ensures
        r == views(keys@).contains(k@),
{
    let mut i: usize = 0;
    while i < keys.len()
        invariant
            i <= keys@.len(),
            forall|j: int| 0 <= j < i ==> views(keys@)[j] != k@,
        decreases keys@.len() - i,
    {
        assert(views(keys@)[i as int] == keys@[i as int]@);
        if same_chars(&keys[i], k) {
            return true;
        }
        i += 1;
    }
    false
}

/// The settings inherited from the person's configuration text.
pub fn inherited_text(theirs: &str) -> (r: Vec<char>)
    ensures
        r@ == inherited_spec(Some(theirs@)),
{
    let keys = den_keys();
    let ls = lines_chars(&chars_of(theirs));
    let ghost lv = lines(theirs@);
    let mut out: Vec<char> = Vec::new();
    let mut i: usize = 0;
    assert(lv.take(0) =~= Seq::<Seq<char>>::empty());
    while i < ls.len()
        invariant
            i <= ls@.len(),
            views(ls@) == lv,
            views(keys@) == den_keys_spec(),
            out@ == kept_lines(lv.take(i as int), den_keys_spec()),
        decreases ls@.len() - i,
    {
        let line = &ls[i];
        assert(lv[i as int] == line@);
        assert(lv.take(i + 1).drop_last() =~= lv.take(i as int));
        let key: Vec<char> = match split_once_chars(line, '=') {
            Some((k, _)) => trim_chars(&k),
            None => Vec::new(),
        };
        assert(key@ =~= line_key(line@));
        if !is_den_key(&keys, &key) {
            push_chars(&mut out, line);
            out.push('\n');
        }
        assert(out@ =~= kept_lines(lv.take(i + 1), den_keys_spec()));
        i += 1;
    }
    assert(lv.take(ls@.len() as int) =~= lv);
    out.push('\n');
    out
}

fn session_text(save_dir: &str, state_dir: &str, core_dir: Option<&str>) -> (r: Vec<char>)
    ensures
        r@ == session_spec(
            save_dir@,
            state_dir@,
            match core_dir {
                Some(d) => Some(d@),
                None => None,
            },
        ),
{
    let mut out: Vec<char> = Vec::new();
    push_setting_lit(&mut out, "video_fullscreen", "true");
    push_setting_lit(&mut out, "input_autodetect_enable", "true");
    push_setting_lit(&mut out, "savestate_auto_save", "true");
    push_setting_lit(&mut out, "savestate_auto_load", "false");
    push_setting_lit(&mut out, "savestate_auto_save_interval", "60");
    push_setting_lit(&mut out, "savefile_directory", save_dir);
    push_setting_lit(&mut out, "savestate_directory", state_dir);
    push_setting_lit(&mut out, "rgui_show_start_screen", "false");
    if let Some(d) = core_dir {
        push_setting_lit(&mut out, "libretro_directory", d);
    }
    let ghost core_v: Option<Seq<char>> = match core_dir {
        Some(d) => Some(d@),
        None => None,
    };
    assert(out@ =~= session_spec(save_dir@, state_dir@, core_v));
    out
}

fn players_text(players: &[PlayerBinding]) -> (r: Vec<char>)
    ensures
        r@ == players_spec(players@),
{
    let mut out: Vec<char> = Vec::new();
    let mut i: usize = 0;
    assert(players@.take(0) =~= Seq::<PlayerBinding>::empty());
    while i < players.len()
        invariant
            i <= players@.len(),
            out@ == players_spec(players@.take(i as int)),
        decreases players@.len() - i,
    {
        let b = &players[i];
        assert(players@.take(i + 1).drop_last() =~= players@.take(i as int));
        assert(players@.take(i + 1).last() == *b);
        if let Some(index) = b.joypad_index {
            let mut key = chars_of("input_player");
            push_chars(&mut key, &decimal(b.player as u64));
            push_str(&mut key, "_joypad_index");
            push_setting(&mut out, &key, &decimal(index as u64));
        }
        i += 1;
    }
    assert(players@.take(players@.len() as int) =~= players@);
    out
}

fn keys_text() -> (r: Vec<char>)
    ensures
        r@ == keys_spec(),
{
    let scheme = keyboard_scheme();
    let mut j: usize = 0;
    let mut part: Vec<char> = Vec::new();
    assert(scheme_spec().take(0) =~= Seq::<(Seq<char>, Seq<char>, Seq<char>)>::empty());
    while j < 12
        invariant
            j <= 12,
            triples(scheme@) == scheme_spec(),
            part@ == button_lines(scheme_spec().take(j as int)),
        decreases 12 - j,
    {
        let (button, key, _shown) = scheme[j];
        assert(scheme_spec()[j as int] == (button@, key@, _shown@));
        let mut name = chars_of("input_player1_");
        push_str(&mut name, button);
        push_setting(&mut part, &name, &chars_of(key));
        assert(scheme_spec().take(j + 1).drop_last() =~= scheme_spec().take(j as int));
        j += 1;
    }
    assert(scheme_spec().take(12) =~= scheme_spec());
    let chrome = keyboard_chrome();
    let mut part2: Vec<char> = Vec::new();
    let mut m: usize = 0;
    assert(chrome_spec().take(0) =~= Seq::<(Seq<char>, Seq<char>, Seq<char>)>::empty());
    while m < 5
        invariant
            m <= 5,
            triples(chrome@) == chrome_spec(),
            part2@ == chrome_lines(chrome_spec().take(m as int)),
        decreases 5 - m,
    {
        let (name, key, _shown) = chrome[m];
        assert(chrome_spec()[m as int] == (name@, key@, _shown@));
        push_setting(&mut part2, &chars_of(name), &chars_of(key));
        assert(chrome_spec().take(m + 1).drop_last() =~= chrome_spec().take(m as int));
        m += 1;
    }
    assert(chrome_spec().take(5) =~= chrome_spec());
    push_chars(&mut part, &part2);
    part
}

/// The configuration file's text for one session.
pub fn config_text(
    save_dir: &str,
    state_dir: &str,
    core_dir: Option<&str>,
    theirs: Option<&str>,
    players: &[PlayerBinding],
) -> (r: String)
    ensures
        r@ == config_spec(
            save_dir@,
            state_dir@,
            match core_dir {
                Some(d) => Some(d@),
                None => None,
            },
            match theirs {
                Some(t) => Some(t@),
                None => None,
            },
            players@,
        ),
{
    let mut out: Vec<char> = match theirs {
        Some(t) => inherited_text(t),
        None => Vec::new(),
    };
    push_chars(&mut out, &session_text(save_dir, state_dir, core_dir));
    out.push('\n');
    push_setting(&mut out, &chars_of("input_max_users"), &decimal(MAX_PLAYERS as u64));
    push_chars(&mut out, &players_text(players));
    out.push('\n');
    push_chars(&mut out, &keys_text());
    let ghost core_v: Option<Seq<char>> = match core_dir {
        Some(d) => Some(d@),
        None => None,
    };
    let ghost theirs_v: Option<Seq<char>> = match theirs {
        Some(t) => Some(t@),
        None => None,
    };
    assert(out@ =~= config_spec(save_dir@, state_dir@, core_v, theirs_v, players@));
    string_from_chars(&out)
}


/// The person's lines that set none of Den's keys, in order.
pub open spec fn their_own(ls: Seq<Seq<char>>, keys: Seq<Seq<char>>) -> Seq<Seq<char>>
    decreases ls.len(),
{
    if ls.len() == 0 {
        Seq::<Seq<char>>::empty()
    } else {
        let r = their_own(ls.drop_last(), keys);
        if keys.contains(line_key(ls.last())) {
            r
        } else {
            r.push(ls.last())
        }
    }
}

/// Lines, each ended by a newline.
pub open spec fn ended_lines(ls: Seq<Seq<char>>) -> Seq<char>
    decreases ls.len(),
{
    if ls.len() == 0 {
        Seq::<char>::empty()
    } else {
        ended_lines(ls.drop_last()) + ls.last() + seq!['\n']
    }
}

/// Ours replace theirs rather than being set twice: what a session keeps of
/// the person's configuration is exactly their lines, in order, that set
/// none of the keys Den writes itself.
pub proof fn lemma_ours_replace_theirs(ls: Seq<Seq<char>>)
    ensures
        kept_lines(ls, den_keys_spec()) == ended_lines(their_own(ls, den_keys_spec())),
        forall|i: int|
            0 <= i < their_own(ls, den_keys_spec()).len() ==> !den_keys_spec().contains(
                line_key(#[trigger] their_own(ls, den_keys_spec())[i]),
            ),
    decreases ls.len(),
{
    if ls.len() > 0 {
        lemma_ours_replace_theirs(ls.drop_last());
        let r = their_own(ls.drop_last(), den_keys_spec());
        if !den_keys_spec().contains(line_key(ls.last())) {
            let q = r.push(ls.last());
            assert(q.drop_last() =~= r);
            assert(ended_lines(q) == ended_lines(r) + ls.last() + seq!['\n']);
            assert(kept_lines(ls, den_keys_spec()) =~= ended_lines(q));
            assert forall|i: int| 0 <= i < q.len() implies !den_keys_spec().contains(line_key(#[trigger] q[i])) by {
                if i < r.len() {
                    assert(q[i] == r[i]);
                }
            }
        } else {
            assert(kept_lines(ls, den_keys_spec()) =~= kept_lines(ls.drop_last(), den_keys_spec()));
        }
    }
}


proof fn lemma_occurs_in_prefix(a: Seq<char>, b: Seq<char>, o: int, n: Seq<char>)
    requires
        occurs_at(a, o, n),
    ensures
        occurs_at(a + b, o, n),
{
    assert((a + b).subrange(o, o + n.len()) =~= a.subrange(o, o + n.len()));
}

proof fn lemma_occurs_in_suffix(a: Seq<char>, b: Seq<char>, o: int, n: Seq<char>)
    requires
        occurs_at(b, o, n),
    ensures
        occurs_at(a + b, a.len() + o, n),
{
    assert((a + b).subrange(a.len() + o, a.len() + o + n.len()) =~= b.subrange(o, o + n.len()));
}

proof fn lemma_button_line_held(rows: Seq<(Seq<char>, Seq<char>, Seq<char>)>, i: int)
    requires
        0 <= i < rows.len(),
    ensures
        contains_seq(button_lines(rows), setting("input_player1_"@ + rows[i].0, rows[i].1)),
    decreases rows.len(),
{
    let a = button_lines(rows.drop_last());
    let x = setting("input_player1_"@ + rows.last().0, rows.last().1);
    if i == rows.len() - 1 {
        assert(occurs_at(x, 0, x)) by {
            assert(x.subrange(0, x.len() as int) =~= x);
        }
        lemma_occurs_in_suffix(a, x, 0, x);
    } else {
        assert(rows.drop_last()[i] == rows[i]);
        lemma_button_line_held(rows.drop_last(), i);
        let n = setting("input_player1_"@ + rows[i].0, rows[i].1);
        let o = choose|o: int| occurs_at(a, o, n);
        lemma_occurs_in_prefix(a, x, o, n);
    }
}

proof fn lemma_chrome_line_held(rows: Seq<(Seq<char>, Seq<char>, Seq<char>)>, i: int)
    requires
        0 <= i < rows.len(),
    ensures
        contains_seq(chrome_lines(rows), setting(rows[i].0, rows[i].1)),
    decreases rows.len(),
{
    let a = chrome_lines(rows.drop_last());
    let x = setting(rows.last().0, rows.last().1);
    if i == rows.len() - 1 {
        assert(occurs_at(x, 0, x)) by {
            assert(x.subrange(0, x.len() as int) =~= x);
        }
        lemma_occurs_in_suffix(a, x, 0, x);
    } else {
        assert(rows.drop_last()[i] == rows[i]);
        lemma_chrome_line_held(rows.drop_last(), i);
        let n = setting(rows[i].0, rows[i].1);
        let o = choose|o: int| occurs_at(a, o, n);
        lemma_occurs_in_prefix(a, x, o, n);
    }
}

/// Every session's configuration binds each key of the keyboard tables:
/// player one's buttons as `input_player1_<button>`, the hotkeys under
/// their own settings.
pub proof fn lemma_every_session_has_the_keys(
    save_dir: Seq<char>,
    state_dir: Seq<char>,
    core_dir: Option<Seq<char>>,
    theirs: Option<Seq<char>>,
    players: Seq<PlayerBinding>,
)
    ensures
        forall|i: int|
            0 <= i < scheme_spec().len() ==> contains_seq(
                config_spec(save_dir, state_dir, core_dir, theirs, players),
                setting("input_player1_"@ + (#[trigger] scheme_spec()[i]).0, scheme_spec()[i].1),
            ),
        forall|i: int|
            0 <= i < chrome_spec().len() ==> contains_seq(
                config_spec(save_dir, state_dir, core_dir, theirs, players),
                setting((#[trigger] chrome_spec()[i]).0, chrome_spec()[i].1),
            ),
{
    let head = inherited_spec(theirs) + session_spec(save_dir, state_dir, core_dir) + seq!['\n'] + setting(
        "input_max_users"@,
        dec(MAX_PLAYERS as nat),
    ) + players_spec(players) + seq!['\n'];
    let bl = button_lines(scheme_spec());
    let cl = chrome_lines(chrome_spec());
    assert(config_spec(save_dir, state_dir, core_dir, theirs, players) =~= head + (bl + cl));
    assert forall|i: int| 0 <= i < scheme_spec().len() implies contains_seq(
        config_spec(save_dir, state_dir, core_dir, theirs, players),
        setting("input_player1_"@ + (#[trigger] scheme_spec()[i]).0, scheme_spec()[i].1),
    ) by {
        lemma_button_line_held(scheme_spec(), i);
        let n = setting("input_player1_"@ + scheme_spec()[i].0, scheme_spec()[i].1);
        let o = choose|o: int| occurs_at(bl, o, n);
        lemma_occurs_in_prefix(bl, cl, o, n);
        lemma_occurs_in_suffix(head, bl + cl, o, n);
    }
    assert forall|i: int| 0 <= i < chrome_spec().len() implies contains_seq(
        config_spec(save_dir, state_dir, core_dir, theirs, players),
        setting((#[trigger] chrome_spec()[i]).0, chrome_spec()[i].1),
    ) by {
        lemma_chrome_line_held(chrome_spec(), i);
        let n = setting(chrome_spec()[i].0, chrome_spec()[i].1);
        let o = choose|o: int| occurs_at(cl, o, n);
        lemma_occurs_in_suffix(bl, cl, o, n);
        lemma_occurs_in_suffix(head, bl + cl, bl.len() + o, n);
    }
}


proof fn lemma_ends_with(a: Seq<char>, x: Seq<char>)
    ensures
        contains_seq(a + x, x),
{
    assert((a + x).subrange(a.len() as int, a.len() + x.len() as int) =~= x);
    assert(occurs_at(a + x, a.len() as int, x));
}

proof fn lemma_grows(a: Seq<char>, b: Seq<char>, n: Seq<char>)
    requires
        contains_seq(a, n),
    ensures
        contains_seq(a + b, n),
        contains_seq(b + a, n),
{
    let o = choose|o: int| occurs_at(a, o, n);
    lemma_occurs_in_prefix(a, b, o, n);
    lemma_occurs_in_suffix(b, a, o, n);
}

/// Each line of the session block stands in it.
proof fn lemma_session_lines(save_dir: Seq<char>, state_dir: Seq<char>, core_dir: Option<Seq<char>>)
    ensures
        contains_seq(session_spec(save_dir, state_dir, core_dir), setting("video_fullscreen"@, "true"@)),
        contains_seq(session_spec(save_dir, state_dir, core_dir), setting("savestate_auto_save"@, "true"@)),
        contains_seq(session_spec(save_dir, state_dir, core_dir), setting("savestate_auto_load"@, "false"@)),
        contains_seq(session_spec(save_dir, state_dir, core_dir), setting("savestate_auto_save_interval"@, "60"@)),
        contains_seq(session_spec(save_dir, state_dir, core_dir), setting("savefile_directory"@, save_dir)),
        contains_seq(session_spec(save_dir, state_dir, core_dir), setting("savestate_directory"@, state_dir)),
        contains_seq(session_spec(save_dir, state_dir, core_dir), setting("rgui_show_start_screen"@, "false"@)),
        core_dir matches Some(d) ==> contains_seq(
            session_spec(save_dir, state_dir, core_dir),
            setting("libretro_directory"@, d),
        ),
{
    let l1 = setting("video_fullscreen"@, "true"@);
    let l2 = setting("input_autodetect_enable"@, "true"@);
    let l3 = setting("savestate_auto_save"@, "true"@);
    let l4 = setting("savestate_auto_load"@, "false"@);
    let l5 = setting("savestate_auto_save_interval"@, "60"@);
    let l6 = setting("savefile_directory"@, save_dir);
    let l7 = setting("savestate_directory"@, state_dir);
    let l8 = setting("rgui_show_start_screen"@, "false"@);
    let l9 = match core_dir {
        None => Seq::<char>::empty(),
        Some(d) => setting("libretro_directory"@, d),
    };
    let p2 = l1 + l2;
    let p3 = p2 + l3;
    let p4 = p3 + l4;
    let p5 = p4 + l5;
    let p6 = p5 + l6;
    let p7 = p6 + l7;
    let p8 = p7 + l8;
    let s = p8 + l9;
    assert(s == session_spec(save_dir, state_dir, core_dir));
    lemma_ends_with(Seq::<char>::empty(), l1);
    assert(Seq::<char>::empty() + l1 =~= l1);
    lemma_grows(l1, l2, l1);
    lemma_grows(p2, l3, l1);
    lemma_ends_with(p2, l3);
    lemma_grows(p3, l4, l1);
    lemma_grows(p3, l4, l3);
    lemma_ends_with(p3, l4);
    lemma_grows(p4, l5, l1);
    lemma_grows(p4, l5, l3);
    lemma_grows(p4, l5, l4);
    lemma_ends_with(p4, l5);
    lemma_grows(p5, l6, l1);
    lemma_grows(p5, l6, l3);
    lemma_grows(p5, l6, l4);
    lemma_grows(p5, l6, l5);
    lemma_ends_with(p5, l6);
    lemma_grows(p6, l7, l1);
    lemma_grows(p6, l7, l3);
    lemma_grows(p6, l7, l4);
    lemma_grows(p6, l7, l5);
    lemma_grows(p6, l7, l6);
    lemma_ends_with(p6, l7);
    lemma_grows(p7, l8, l1);
    lemma_grows(p7, l8, l3);
    lemma_grows(p7, l8, l4);
    lemma_grows(p7, l8, l5);
    lemma_grows(p7, l8, l6);
    lemma_grows(p7, l8, l7);
    lemma_ends_with(p7, l8);
    lemma_grows(p8, l9, l1);
    lemma_grows(p8, l9, l3);
    lemma_grows(p8, l9, l4);
    lemma_grows(p8, l9, l5);
    lemma_grows(p8, l9, l6);
    lemma_grows(p8, l9, l7);
    lemma_grows(p8, l9, l8);
    lemma_ends_with(p8, l9);
}

/// What stands in the session block stands in the whole configuration.
proof fn lemma_session_line_kept(
    save_dir: Seq<char>,
    state_dir: Seq<char>,
    core_dir: Option<Seq<char>>,
    theirs: Option<Seq<char>>,
    players: Seq<PlayerBinding>,
    n: Seq<char>,
)
    requires
        contains_seq(session_spec(save_dir, state_dir, core_dir), n),
    ensures
        contains_seq(config_spec(save_dir, state_dir, core_dir, theirs, players), n),
{
    let i = inherited_spec(theirs);
    let s = session_spec(save_dir, state_dir, core_dir);
    let m = setting("input_max_users"@, dec(MAX_PLAYERS as nat));
    lemma_grows(s, i, n);
    lemma_grows(i + s, seq!['\n'], n);
    lemma_grows(i + s + seq!['\n'], m, n);
    lemma_grows(i + s + seq!['\n'] + m, players_spec(players), n);
    lemma_grows(i + s + seq!['\n'] + m + players_spec(players), seq!['\n'], n);
    lemma_grows(i + s + seq!['\n'] + m + players_spec(players) + seq!['\n'], keys_spec(), n);
}

/// `key = "value"` for a key and a value written out.
proof fn lemma_literal_setting(key: &str, value: &str, line: &str)
    requires
        line@ =~= key@ + " = \""@ + value@ + "\"\n"@,
    ensures
        setting(key@, value@) == line@,
{
}

/// The session lines and the player count, written out.
proof fn lemma_session_literals(save_dir: Seq<char>, state_dir: Seq<char>)
    ensures
        setting("video_fullscreen"@, "true"@) == "video_fullscreen = \"true\"\n"@,
        setting("savestate_auto_save"@, "true"@) == "savestate_auto_save = \"true\"\n"@,
        setting("savestate_auto_load"@, "false"@) == "savestate_auto_load = \"false\"\n"@,
        setting("savestate_auto_save_interval"@, "60"@) == "savestate_auto_save_interval = \"60\"\n"@,
        setting("rgui_show_start_screen"@, "false"@) == "rgui_show_start_screen = \"false\"\n"@,
        setting("savefile_directory"@, save_dir) == "savefile_directory = \""@ + save_dir + "\"\n"@,
        setting("savestate_directory"@, state_dir) == "savestate_directory = \""@ + state_dir + "\"\n"@,
        setting("input_max_users"@, dec(MAX_PLAYERS as nat)) == "input_max_users = \"4\"\n"@,
{
    assert(setting("video_fullscreen"@, "true"@) == "video_fullscreen = \"true\"\n"@) by {
        reveal_strlit("video_fullscreen");
        reveal_strlit(" = \"");
        reveal_strlit("true");
        reveal_strlit("\"\n");
        reveal_strlit("video_fullscreen = \"true\"\n");
        lemma_literal_setting("video_fullscreen", "true", "video_fullscreen = \"true\"\n");
    }
    assert(setting("savestate_auto_save"@, "true"@) == "savestate_auto_save = \"true\"\n"@) by {
        reveal_strlit("savestate_auto_save");
        reveal_strlit(" = \"");
        reveal_strlit("true");
        reveal_strlit("\"\n");
        reveal_strlit("savestate_auto_save = \"true\"\n");
        lemma_literal_setting("savestate_auto_save", "true", "savestate_auto_save = \"true\"\n");
    }
    assert(setting("savestate_auto_load"@, "false"@) == "savestate_auto_load = \"false\"\n"@) by {
        reveal_strlit("savestate_auto_load");
        reveal_strlit(" = \"");
        reveal_strlit("false");
        reveal_strlit("\"\n");
        reveal_strlit("savestate_auto_load = \"false\"\n");
        lemma_literal_setting("savestate_auto_load", "false", "savestate_auto_load = \"false\"\n");
    }
    assert(setting("savestate_auto_save_interval"@, "60"@) == "savestate_auto_save_interval = \"60\"\n"@) by {
        reveal_strlit("savestate_auto_save_interval");
        reveal_strlit(" = \"");
        reveal_strlit("60");
        reveal_strlit("\"\n");
        reveal_strlit("savestate_auto_save_interval = \"60\"\n");
        lemma_literal_setting("savestate_auto_save_interval", "60", "savestate_auto_save_interval = \"60\"\n");
    }
    assert(setting("rgui_show_start_screen"@, "false"@) == "rgui_show_start_screen = \"false\"\n"@) by {
        reveal_strlit("rgui_show_start_screen");
        reveal_strlit(" = \"");
        reveal_strlit("false");
        reveal_strlit("\"\n");
        reveal_strlit("rgui_show_start_screen = \"false\"\n");
        lemma_literal_setting("rgui_show_start_screen", "false", "rgui_show_start_screen = \"false\"\n");
    }
    assert(setting("savefile_directory"@, save_dir) =~= "savefile_directory = \""@ + save_dir + "\"\n"@) by {
        reveal_strlit("savefile_directory");
        reveal_strlit(" = \"");
        reveal_strlit("savefile_directory = \"");
    }
    assert(setting("savestate_directory"@, state_dir) =~= "savestate_directory = \""@ + state_dir + "\"\n"@) by {
        reveal_strlit("savestate_directory");
        reveal_strlit(" = \"");
        reveal_strlit("savestate_directory = \"");
    }
    let m = setting("input_max_users"@, dec(MAX_PLAYERS as nat));
    assert(m == "input_max_users = \"4\"\n"@) by {
        assert(dec(4) == seq![crate::text::digit(4)]);
        reveal_strlit("input_max_users");
        reveal_strlit(" = \"");
        reveal_strlit("4");
        reveal_strlit("\"\n");
        reveal_strlit("input_max_users = \"4\"\n");
        lemma_literal_setting("input_max_users", "4", "input_max_users = \"4\"\n");
    }
}

/// The line that points RetroArch at a cores folder, written out.
proof fn lemma_libretro_literal(d: Seq<char>)
    ensures
        setting("libretro_directory"@, d) == "libretro_directory = \""@ + d + "\"\n"@,
{
    assert(setting("libretro_directory"@, d) =~= "libretro_directory = \""@ + d + "\"\n"@) by {
        reveal_strlit("libretro_directory");
        reveal_strlit(" = \"");
        reveal_strlit("libretro_directory = \"");
    }
}

/// Every session runs fullscreen, saves its state when it ends (and does
/// not load one when it starts, which Den asks for itself), saves every
/// minute, keeps battery saves and states in the library's folders, skips
/// RetroArch's start screen, drives four players, and, when a cores folder
/// was found, points RetroArch at it.
pub proof fn lemma_every_session_saves_where_it_is_told(
    save_dir: Seq<char>,
    state_dir: Seq<char>,
    core_dir: Option<Seq<char>>,
    theirs: Option<Seq<char>>,
    players: Seq<PlayerBinding>,
)
    ensures
        contains_seq(config_spec(save_dir, state_dir, core_dir, theirs, players), "video_fullscreen = \"true\"\n"@),
        contains_seq(config_spec(save_dir, state_dir, core_dir, theirs, players), "savestate_auto_save = \"true\"\n"@),
        contains_seq(config_spec(save_dir, state_dir, core_dir, theirs, players), "savestate_auto_load = \"false\"\n"@),
        contains_seq(
            config_spec(save_dir, state_dir, core_dir, theirs, players),
            "savestate_auto_save_interval = \"60\"\n"@,
        ),
        contains_seq(
            config_spec(save_dir, state_dir, core_dir, theirs, players),
            "savefile_directory = \""@ + save_dir + "\"\n"@,
        ),
        contains_seq(
            config_spec(save_dir, state_dir, core_dir, theirs, players),
            "savestate_directory = \""@ + state_dir + "\"\n"@,
        ),
        contains_seq(
            config_spec(save_dir, state_dir, core_dir, theirs, players),
            "rgui_show_start_screen = \"false\"\n"@,
        ),
        contains_seq(config_spec(save_dir, state_dir, core_dir, theirs, players), "input_max_users = \"4\"\n"@),
        core_dir matches Some(d) ==> contains_seq(
            config_spec(save_dir, state_dir, core_dir, theirs, players),
            "libretro_directory = \""@ + d + "\"\n"@,
        ),
{
    lemma_session_lines(save_dir, state_dir, core_dir);
    lemma_session_line_kept(save_dir, state_dir, core_dir, theirs, players, setting("video_fullscreen"@, "true"@));
    lemma_session_line_kept(save_dir, state_dir, core_dir, theirs, players, setting("savestate_auto_save"@, "true"@));
    lemma_session_line_kept(save_dir, state_dir, core_dir, theirs, players, setting("savestate_auto_load"@, "false"@));
    lemma_session_line_kept(
        save_dir, state_dir, core_dir, theirs, players, setting("savestate_auto_save_interval"@, "60"@));
    lemma_session_line_kept(save_dir, state_dir, core_dir, theirs, players, setting("savefile_directory"@, save_dir));
    lemma_session_line_kept(save_dir, state_dir, core_dir, theirs, players, setting("savestate_directory"@, state_dir));
    lemma_session_line_kept(
        save_dir, state_dir, core_dir, theirs, players, setting("rgui_show_start_screen"@, "false"@));
    lemma_session_literals(save_dir, state_dir);
    let i = inherited_spec(theirs);
    let s = session_spec(save_dir, state_dir, core_dir);
    let m = setting("input_max_users"@, dec(MAX_PLAYERS as nat));
    lemma_ends_with(i + s + seq!['\n'], m);
    lemma_grows(i + s + seq!['\n'] + m, players_spec(players), m);
    lemma_grows(i + s + seq!['\n'] + m + players_spec(players), seq!['\n'], m);
    lemma_grows(i + s + seq!['\n'] + m + players_spec(players) + seq!['\n'], keys_spec(), m);
    if let Some(d) = core_dir {
        lemma_session_line_kept(save_dir, state_dir, core_dir, theirs, players, setting("libretro_directory"@, d));
        lemma_libretro_literal(d);
    }
}

} // verus!
