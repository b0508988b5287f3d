//! What the library handle decides: which core a game runs under, which
//! systems Den does not drive, who plays with which pad, what the keyboard
//! does, and how RetroArch's state is reported.
//!
//! The handle itself owns the database, the processes and the input
//! directory, all of which are I/O kept with the program around this
//! library; each decision it makes from what those return is here.

use vstd::prelude::*;
use crate::config::{MAX_PLAYERS, PlayerBinding, chrome_spec, config_spec, keyboard_chrome, keyboard_scheme,
    lemma_every_session_has_the_keys, scheme_spec, setting, triples};
use crate::db::Game;
use crate::input::{ControllerInfo, digit_ok, parse_unsigned, parse_unsigned_chars};
use crate::intake::IntakeError;
use crate::path::{join, push};
use crate::runner::{Found, RunnerError, runner_message, source_word};
use crate::system::{System, core_of, first_named, all_systems, name_of};
use crate::text::{chars_of, contains_seq, dec, decimal, is_literal, push_chars, push_str, string_from_chars};
use crate::locate::opt_view;

verus! {

broadcast use vstd::string::group_string_axioms;

/// Why the library handle could not do something.
#[derive(Debug)]
pub enum Error {
    Db(String),
    Io(String),
    Intake(IntakeError),
    Runner(RunnerError),
    NotFound,
    External(String),
    Unusable(String),
}

/// The sentence an error of the library handle is shown as.
pub open spec fn error_message(e: Error) -> Seq<char> {
    match e {
        Error::Db(m) => "database error: "@ + m@,
        Error::Io(m) => "io error: "@ + m@,
        Error::Intake(i) => "intake error: "@ + crate::intake::intake_message(i),
        Error::Runner(r) => "runner error: "@ + runner_message(r),
        Error::NotFound => "game not found"@,
        Error::External(s) => "external emulator profile required for "@ + s@ + " (not wired in v1)"@,
        Error::Unusable(m) => m@,
    }
}

impl Error {
    /// The error as a sentence.
    pub fn message(&self) -> (r: String)
        ensures
            r@ == error_message(*self),
    {
        let mut v: Vec<char> = Vec::new();
        match self {
            Error::Db(m) => {
                push_str(&mut v, "database error: ");
                push_str(&mut v, m.as_str());
            },
            Error::Io(m) => {
                push_str(&mut v, "io error: ");
                push_str(&mut v, m.as_str());
            },
            Error::Intake(i) => {
                push_str(&mut v, "intake error: ");
                let t = i.message();
                push_str(&mut v, t.as_str());
            },
            Error::Runner(r) => {
                push_str(&mut v, "runner error: ");
                let t = r.message();
                push_str(&mut v, t.as_str());
            },
            Error::NotFound => {
                push_str(&mut v, "game not found");
            },
            Error::External(s) => {
                push_str(&mut v, "external emulator profile required for ");
                push_str(&mut v, s.as_str());
                push_str(&mut v, " (not wired in v1)");
            },
            Error::Unusable(m) => {
                push_str(&mut v, m.as_str());
            },
        }
        string_from_chars(&v)
    }
}

/// A game that was started.
#[derive(Debug)]
pub struct LaunchInfo {
    pub pid: u32,
    pub core: String,
    pub content: String,
}

/// What the interface is told of RetroArch.
#[derive(Debug)]
pub struct RetroArchStatus {
    pub available: bool,
    pub path: Option<String>,
    pub source: Option<String>,
    pub chosen: bool,
    pub problem: Option<String>,
    pub searched: Vec<String>,
    pub runtime_dir: String,
}

/// One line of the keyboard legend.
#[derive(Debug)]
pub struct KeyBinding {
    pub action: String,
    pub key: String,
}

/// What the interface is told of a game's core.
#[derive(Debug)]
pub struct CoreStatus {
    pub name: String,
    pub installed: Option<bool>,
    pub unsupported: Option<String>,
}

/// The setting a chosen RetroArch path is kept under.
pub const RETROARCH_SETTING: &'static str = "retroarch_path";

/// The setting prefix a pad's player is kept under.
pub const PAD_SETTING: &'static str = "pad_player:";

/// The setting value of a pad deliberately given to nobody.
pub const PAD_NOBODY: &'static str = "none";

/// ASCII upper case of one character.
pub open spec fn upper(c: char) -> char {
    if 'a' <= c && c <= 'z' {
        ((c as u32) - 32) as char
    } else {
        c
    }
}

fn upper_char(c: char) -> (r: char)
    ensures
        r == upper(c),
{
    if 'a' <= c && c <= 'z' {
        let b: u8 = c as u8;
        (b - 32) as char
    } else {
        c
    }
}

/// How a RetroArch button is named on screen.
pub open spec fn button_label_spec(b: Seq<char>) -> Seq<char> {
    if b == "up"@ || b == "down"@ || b == "left"@ || b == "right"@ {
        "D-pad "@ + seq![upper(b[0])] + b.skip(1)
    } else if b == "a"@ || b == "b"@ || b == "x"@ || b == "y"@ {
        b.map_values(|c: char| upper(c)) + " button"@
    } else if b == "l"@ || b == "r"@ {
        b.map_values(|c: char| upper(c)) + " shoulder"@
    } else if b == "start"@ {
        "Start"@
    } else if b == "select"@ {
        "Select"@
    } else {
        b
    }
}

pub fn button_label(button: &str) -> (r: String)
    ensures
        r@ == button_label_spec(button@),
{
    let b = chars_of(button);
    proof {
        reveal_strlit("up");
        reveal_strlit("down");
        reveal_strlit("left");
        reveal_strlit("right");
        reveal_strlit("a");
        reveal_strlit("b");
        reveal_strlit("x");
        reveal_strlit("y");
        reveal_strlit("l");
        reveal_strlit("r");
    }
    let mut v: Vec<char> = Vec::new();
    if is_literal(&b, "up") || is_literal(&b, "down") || is_literal(&b, "left") || is_literal(&b, "right") {
        push_str(&mut v, "D-pad ");
        v.push(upper_char(b[0]));
        let rest = crate::text::slice_chars(&b, 1, b.len());
        push_chars(&mut v, &rest);
        assert(rest@ =~= b@.skip(1));
    } else if is_literal(&b, "a") || is_literal(&b, "b") || is_literal(&b, "x") || is_literal(&b, "y") {
        v.push(upper_char(b[0]));
        assert(v@ =~= b@.map_values(|c: char| upper(c)));
        push_str(&mut v, " button");
    } else if is_literal(&b, "l") || is_literal(&b, "r") {
        v.push(upper_char(b[0]));
        assert(v@ =~= b@.map_values(|c: char| upper(c)));
        push_str(&mut v, " shoulder");
    } else if is_literal(&b, "start") {
        push_str(&mut v, "Start");
    } else if is_literal(&b, "select") {
        push_str(&mut v, "Select");
    } else {
        push_chars(&mut v, &b);
    }
    string_from_chars(&v)
}

/// How a RetroArch hotkey setting is named on screen.
pub open spec fn chrome_label_spec(s: Seq<char>) -> Seq<char> {
    if s == "input_menu_toggle"@ {
        "RetroArch menu"@
    } else if s == "input_exit_emulator"@ {
        "Quit back to Den"@
    } else if s == "input_save_state"@ {
        "Save state"@
    } else if s == "input_load_state"@ {
        "Load state"@
    } else if s == "input_toggle_fullscreen"@ {
        "Windowed / fullscreen"@
    } else {
        s
    }
}

pub fn chrome_label(setting: &str) -> (r: String)
    ensures
        r@ == chrome_label_spec(setting@),
{
    let s = chars_of(setting);
    let l: &str = if is_literal(&s, "input_menu_toggle") {
        "RetroArch menu"
    } else if is_literal(&s, "input_exit_emulator") {
        "Quit back to Den"
    } else if is_literal(&s, "input_save_state") {
        "Save state"
    } else if is_literal(&s, "input_load_state") {
        "Load state"
    } else if is_literal(&s, "input_toggle_fullscreen") {
        "Windowed / fullscreen"
    } else {
        setting
    };
    l.to_owned()
}

/// A key binding as values.
pub open spec fn binding_views(v: Seq<KeyBinding>) -> Seq<(Seq<char>, Seq<char>)> {
    v.map_values(|k: KeyBinding| (k.action@, k.key@))
}

/// The keyboard legend: each of player one's buttons, then each hotkey,
/// with what its key is called.
pub open spec fn keyboard_legend() -> Seq<(Seq<char>, Seq<char>)> {
    scheme_spec().map_values(
        |t: (Seq<char>, Seq<char>, Seq<char>)| (button_label_spec(t.0), t.2),
    ) + chrome_spec().map_values(|t: (Seq<char>, Seq<char>, Seq<char>)| (chrome_label_spec(t.0), t.2))
}

pub fn keyboard_bindings() -> (r: Vec<KeyBinding>)
    ensures
        binding_views(r@) == keyboard_legend(),
{
    let scheme = keyboard_scheme();
    let chrome = keyboard_chrome();
    let ghost a = scheme_spec().map_values(|t: (Seq<char>, Seq<char>, Seq<char>)| (button_label_spec(t.0), t.2));
    let ghost b = chrome_spec().map_values(|t: (Seq<char>, Seq<char>, Seq<char>)| (chrome_label_spec(t.0), t.2));
    let mut out: Vec<KeyBinding> = Vec::new();
    let mut i: usize = 0;
    while i < 12
        invariant
            i <= 12,
            triples(scheme@) == scheme_spec(),
            a == scheme_spec().map_values(|t: (Seq<char>, Seq<char>, Seq<char>)| (button_label_spec(t.0), t.2)),
            binding_views(out@) == a.take(i as int),
        decreases 12 - i,
    {
        let (button, _key, shown) = scheme[i];
        assert(triples(scheme@)[i as int] == (button@, _key@, shown@));
        let k = KeyBinding { action: button_label(button), key: shown.to_owned() };
        let ghost before = binding_views(out@);
        let ghost kv = (k.action@, k.key@);
        out.push(k);
        assert(binding_views(out@) =~= before.push(kv));
        i += 1;
        assert(binding_views(out@) =~= a.take(i as int));
    }
    let mut j: usize = 0;
    while j < 5
        invariant
            j <= 5,
            triples(chrome@) == chrome_spec(),
            b == chrome_spec().map_values(|t: (Seq<char>, Seq<char>, Seq<char>)| (chrome_label_spec(t.0), t.2)),
            a.len() == 12,
            binding_views(out@) == a + b.take(j as int),
        decreases 5 - j,
    {
        let (setting, _key, shown) = chrome[j];
        assert(triples(chrome@)[j as int] == (setting@, _key@, shown@));
        let k = KeyBinding { action: chrome_label(setting), key: shown.to_owned() };
        let ghost before = binding_views(out@);
        let ghost kv = (k.action@, k.key@);
        out.push(k);
        assert(binding_views(out@) =~= before.push(kv));
        j += 1;
        assert(binding_views(out@) =~= a + b.take(j as int));
    }
    assert(a.take(12) =~= a);
    assert(b.take(5) =~= b);
    out
}

/// The setting a pad's player is kept under: `pad_player:<identity>`.
pub open spec fn pad_key_spec(identity: Seq<char>) -> Seq<char> {
    "pad_player:"@ + identity
}

pub fn pad_key(identity: &str) -> (r: String)
    ensures
        r@ == pad_key_spec(identity@),
{
    let mut v: Vec<char> = Vec::new();
    push_str(&mut v, PAD_SETTING);
    push_str(&mut v, identity);
    string_from_chars(&v)
}

/// Whether a system is one Den cannot run under RetroArch.
pub open spec fn is_external(s: Option<System>) -> bool {
    s == Some(System::Ps2) || s == Some(System::Gamecube) || s == Some(System::Wii)
}

/// Why a game of this system cannot be launched, when it is one that needs
/// an external emulator.
pub open spec fn external_only_spec(system: Seq<char>) -> Option<Seq<char>> {
    if is_external(first_named(all_systems(), system)) {
        Some(system + " needs an external emulator, which Den does not drive yet"@)
    } else {
        None
    }
}

pub fn external_only(system: &str) -> (r: Option<String>)
    ensures
        opt_view(r) == external_only_spec(system@),
{
    let s = System::from_name(system);
    if s == Some(System::Ps2) || s == Some(System::Gamecube) || s == Some(System::Wii) {
        let mut v = chars_of(system);
        push_str(&mut v, " needs an external emulator, which Den does not drive yet");
        Some(string_from_chars(&v))
    } else {
        None
    }
}

/// The core a game runs under: its own choice, else its system's default,
/// else none.
pub open spec fn core_for_spec(core: Option<Seq<char>>, system: Seq<char>) -> Seq<char> {
    match core {
        Some(c) => c,
        None => match first_named(all_systems(), system) {
            Some(s) => core_of(s),
            None => Seq::<char>::empty(),
        },
    }
}

pub fn core_for(game: &Game) -> (r: String)
    ensures
        r@ == core_for_spec(opt_view(game.core), game.system@),
{
    match &game.core {
        Some(c) => c.clone(),
        None => match System::from_name(game.system.as_str()) {
            Some(s) => s.default_core().to_owned(),
            None => String::new(),
        },
    }
}

/// What a launch runs a game under, or why it is refused: a system that
/// needs an external emulator is refused by name.
pub fn launch_core(game: &Game) -> (r: Result<String, Error>)
    ensures
        is_external(first_named(all_systems(), game.system@)) ==> (r matches Err(Error::External(s)) && s@
            == game.system@),
        !is_external(first_named(all_systems(), game.system@)) ==> (r matches Ok(c) && c@ == core_for_spec(
            opt_view(game.core),
            game.system@,
        )),
{
    let s = System::from_name(game.system.as_str());
    if s == Some(System::Ps2) || s == Some(System::Gamecube) || s == Some(System::Wii) {
        return Err(Error::External(game.system.clone()));
    }
    Ok(core_for(game))
}

/// The refusal of a second copy of a game that is playing.
pub open spec fn already_running(title: Seq<char>) -> Seq<char> {
    title + " is already running; stop it before starting it again"@
}

/// Whether a game may start: not while a copy of it is still playing, since
/// two copies would write over each other's save.
pub fn second_copy(game_id: i64, title: &str, playing: &Vec<i64>) -> (r: Result<(), Error>)
    ensures
        playing@.contains(game_id) ==> (r matches Err(Error::Unusable(m)) && m@ == already_running(title@)),
        !playing@.contains(game_id) ==> r is Ok,
{
    let mut i: usize = 0;
    while i < playing.len()
        invariant
            i <= playing@.len(),
            forall|j: int| 0 <= j < i ==> playing@[j] != game_id,
        decreases playing@.len() - i,
    {
        if playing[i] == game_id {
            assert(playing@[i as int] == game_id);
            let mut v: Vec<char> = chars_of(title);
            push_str(&mut v, " is already running; stop it before starting it again");
            return Err(Error::Unusable(string_from_chars(&v)));
        }
        i += 1;
    }
    Ok(())
}

/// What the interface is told of a game's core: its name; for a system
/// Den does not drive, why; otherwise whether it is installed, which is
/// known to be false for a game with no core at all.
pub fn core_status(game: &Game, installed: Option<bool>) -> (r: CoreStatus)
    ensures
        r.name@ == core_for_spec(opt_view(game.core), game.system@),
        opt_view(r.unsupported) == external_only_spec(game.system@),
        r.installed == if external_only_spec(game.system@) is Some {
            None
        } else if core_for_spec(opt_view(game.core), game.system@).len() == 0 {
            Some(false)
        } else {
            installed
        },
{
    let name = core_for(game);
    if let Some(reason) = external_only(game.system.as_str()) {
        return CoreStatus { name, installed: None, unsupported: Some(reason) };
    }
    let inst = if name.as_str().is_empty() {
        Some(false)
    } else {
        installed
    };
    CoreStatus { name, installed: inst, unsupported: None }
}

/// What the interface is told of RetroArch, from where it was looked for,
/// whether a path was chosen, the managed directory and what the look
/// found.
pub fn retroarch_status(
    searched: Vec<String>,
    chosen: bool,
    runtime_dir: String,
    located: &Result<Found, RunnerError>,
) -> (r: RetroArchStatus)
    ensures
        r.searched@ == searched@,
        r.chosen == chosen,
        r.runtime_dir@ == runtime_dir@,
        r.available == located is Ok,
        match located {
            Ok(f) => opt_view(r.path) == Some(f.path@) && opt_view(r.source) == Some(source_word(f.source))
                && r.problem is None,
            Err(e) => r.path is None && r.source is None && opt_view(r.problem) == Some(runner_message(*e)),
        },
{
    match located {
        Ok(found) => RetroArchStatus {
            available: true,
            path: Some(found.path.clone()),
            source: Some(found.source.word().to_owned()),
            chosen,
            problem: None,
            searched,
            runtime_dir,
        },
        Err(e) => RetroArchStatus {
            available: false,
            path: None,
            source: None,
            chosen,
            problem: Some(e.message()),
            searched,
            runtime_dir,
        },
    }
}

/// A player number out of a setting's value, as `usize` parses it.
pub open spec fn setting_player(v: Option<Seq<char>>) -> Option<int> {
    match v {
        Some(s) => parse_unsigned(s, false, usize::MAX as int),
        None => None,
    }
}

fn parse_player(v: &Option<String>) -> (r: Option<usize>)
    ensures
        match r {
            Some(n) => setting_player(opt_view(*v)) == Some(n as int),
            None => setting_player(opt_view(*v)) is None,
        },
{
    match v {
        Some(s) => {
            let c = chars_of(s.as_str());
            match parse_unsigned_chars(&c, false, usize::MAX as u64) {
                Some(n) => Some(n as usize),
                None => None,
            }
        },
        None => None,
    }
}

/// Whether a player number is one Den drives.
pub open spec fn valid_player(p: int) -> bool {
    1 <= p <= MAX_PLAYERS
}

/// The players given out so far, by pad, in pad order: a pad's saved
/// player when it is one Den drives and nobody before it took it.
pub open spec fn saved_players(settings: Seq<Option<Seq<char>>>) -> Seq<Option<int>>
    decreases settings.len(),
{
    if settings.len() == 0 {
        Seq::<Option<int>>::empty()
    } else {
        let r = saved_players(settings.drop_last());
        match setting_player(settings.last()) {
            Some(p) => if valid_player(p) && !r.contains(Some(p)) {
                r.push(Some(p))
            } else {
                r.push(None)
            },
            None => r.push(None),
        }
    }
}

/// The lowest player number nobody has, if any is left.
pub open spec fn first_free(taken: Seq<Option<int>>) -> Option<int> {
    if !taken.contains(Some(1)) {
        Some(1)
    } else if !taken.contains(Some(2)) {
        Some(2)
    } else if !taken.contains(Some(3)) {
        Some(3)
    } else if !taken.contains(Some(4)) {
        Some(4)
    } else {
        None
    }
}

/// Players for the pads left without one, in pad order: each pad that has
/// no player and was not deliberately given to nobody gets the lowest free
/// number, until none is free.
pub open spec fn filled_players(p: Seq<Option<int>>, deliberate: Seq<bool>, i: int) -> Seq<Option<int>>
    decreases p.len() - i,
{
    if i >= p.len() || i < 0 {
        p
    } else if p[i] is Some || deliberate[i] {
        filled_players(p, deliberate, i + 1)
    } else {
        match first_free(p) {
            None => p,
            Some(f) => filled_players(p.update(i, Some(f)), deliberate, i + 1),
        }
    }
}

/// The player of each pad: saved players kept when valid and not taken,
/// then free numbers handed out.
pub open spec fn players_spec(settings: Seq<Option<Seq<char>>>) -> Seq<Option<int>> {
    filled_players(
        saved_players(settings),
        settings.map_values(|s: Option<Seq<char>>| s == Some("none"@)),
        0,
    )
}

/// The settings of a list of pads, as values.
pub open spec fn setting_views(v: Seq<Option<String>>) -> Seq<Option<Seq<char>>> {
    v.map_values(|s: Option<String>| opt_view(s))
}

fn taken_contains(taken: &Vec<usize>, p: usize) -> (r: bool)
    ensures
        r == taken@.contains(p),
{
    let mut i: usize = 0;
    while i < taken.len()
        invariant
            i <= taken@.len(),
            forall|j: int| 0 <= j < i ==> taken@[j] != p,
        decreases taken@.len() - i,
    {
        if taken[i] == p {
            return true;
        }
        i += 1;
    }
    false
}

/// The players as values.
pub open spec fn player_ints(v: Seq<Option<usize>>) -> Seq<Option<int>> {
    v.map_values(
        |o: Option<usize>|
            match o {
                Some(n) => Some(n as int),
                None => None,
            },
    )
}

proof fn lemma_update_none_contains(p: Seq<Option<int>>, i: int, f: int, y: int)
    requires
        0 <= i < p.len(),
        p[i] is None,
    ensures
        p.update(i, Some(f)).contains(Some(y)) == (p.contains(Some(y)) || y == f),
{
    let q = p.update(i, Some(f));
    if q.contains(Some(y)) {
        let k = choose|k: int| 0 <= k < q.len() && q[k] == Some(y);
        if k != i {
            assert(p[k] == Some(y));
        }
    }
    if p.contains(Some(y)) {
        let k = choose|k: int| 0 <= k < p.len() && p[k] == Some(y);
        assert(k != i);
        assert(q[k] == Some(y));
    }
    if y == f {
        assert(q[i] == Some(y));
    }
}

/// The settings saved for pads that were just given a player: each such
/// pad's key and its new player, in pad order.
pub open spec fn new_writes(
    ids: Seq<Seq<char>>,
    saved: Seq<Option<int>>,
    fin: Seq<Option<int>>,
    n: int,
) -> Seq<(Seq<char>, Seq<char>)>
    decreases n,
{
    if n <= 0 {
        Seq::<(Seq<char>, Seq<char>)>::empty()
    } else {
        let r = new_writes(ids, saved, fin, n - 1);
        let k = n - 1;
        if saved[k] is None && fin[k] is Some {
            r.push((pad_key_spec(ids[k]), dec(fin[k]->0 as nat)))
        } else {
            r
        }
    }
}

/// The identities of a list of pads.
pub open spec fn identities(v: Seq<ControllerInfo>) -> Seq<Seq<char>> {
    v.map_values(|c: ControllerInfo| c.identity@)
}

/// Who plays with which pad. `settings` holds each pad's saved setting, in
/// pad order. A saved player Den drives is kept unless a pad before it
/// took it; every other pad, unless it was deliberately given to nobody,
/// gets the lowest free number while one is left. The result holds the
/// pads with their players, and the settings to save for the pads that
/// were just given one.
pub fn assign_players(pads: Vec<ControllerInfo>, settings: &Vec<Option<String>>) -> (r: (
    Vec<ControllerInfo>,
    Vec<(String, String)>,
))
    requires
        settings@.len() == pads@.len(),
    ensures
        r.0@.len() == pads@.len(),
        forall|k: int|
            0 <= k < pads@.len() ==> {
                &&& (#[trigger] r.0@[k]).id == pads@[k].id
                &&& r.0@[k].identity == pads@[k].identity
                &&& r.0@[k].name == pads@[k].name
                &&& r.0@[k].index == pads@[k].index
                &&& match r.0@[k].player {
                    Some(p) => players_spec(setting_views(settings@))[k] == Some(p as int),
                    None => players_spec(setting_views(settings@))[k] is None,
                }
            },
        r.1@.map_values(|w: (String, String)| (w.0@, w.1@)) == new_writes(
            identities(pads@),
            saved_players(setting_views(settings@)),
            players_spec(setting_views(settings@)),
            pads@.len() as int,
        ),
{
    broadcast use vstd::seq_lib::lemma_seq_contains_after_push;

    let ghost sv = setting_views(settings@);
    let ghost del = sv.map_values(|s: Option<Seq<char>>| s == Some("none"@));
    let mut players: Vec<Option<usize>> = Vec::new();
    let mut taken: Vec<usize> = Vec::new();
    let mut deliberate: Vec<bool> = Vec::new();
    let mut i: usize = 0;
    assert(sv.take(0) =~= Seq::<Option<Seq<char>>>::empty());
    assert(player_ints(players@) =~= Seq::<Option<int>>::empty());
    while i < pads.len()
        invariant
            i <= pads@.len(),
            settings@.len() == pads@.len(),
            sv == setting_views(settings@),
            del == sv.map_values(|s: Option<Seq<char>>| s == Some("none"@)),
            players@.len() == i,
            deliberate@.len() == i,
            player_ints(players@) == saved_players(sv.take(i as int)),
            forall|q: usize|
                1 <= q <= 4 ==> (#[trigger] taken@.contains(q) <==> player_ints(players@).contains(
                    Some(q as int),
                )),
            forall|j: int| 0 <= j < taken@.len() ==> 1 <= #[trigger] taken@[j] <= 4,
            forall|j: int| 0 <= j < i ==> deliberate@[j] == del[j],
        decreases pads@.len() - i,
    {
        assert(sv.take(i + 1).drop_last() =~= sv.take(i as int));
        assert(sv.take(i + 1).last() == sv[i as int]);
        assert(sv[i as int] == opt_view(settings@[i as int]));
        let ghost r = saved_players(sv.take(i as int));
        let ghost t0 = taken@;
        let p = parse_player(&settings[i]);
        let d = match &settings[i] {
            Some(s) => is_literal(&chars_of(s.as_str()), PAD_NOBODY),
            None => false,
        };
        proof {
            reveal_strlit("none");
        }
        assert(d == del[i as int]);
        let ghost before = player_ints(players@);
        let mut kept = false;
        if let Some(n) = p {
            if 1 <= n && n <= MAX_PLAYERS && !taken_contains(&taken, n) {
                assert(!r.contains(Some(n as int)));
                players.push(Some(n));
                taken.push(n);
                kept = true;
                assert(player_ints(players@) =~= before.push(Some(n as int)));
            } else {
                if 1 <= n && n <= MAX_PLAYERS {
                    assert(taken@.contains(n));
                    assert(r.contains(Some(n as int)));
                }
            }
        }
        if !kept {
            players.push(None);
            assert(player_ints(players@) =~= before.push(None));
        }
        deliberate.push(d);
        assert forall|q: usize| 1 <= q <= 4 implies (#[trigger] taken@.contains(q)
            <==> player_ints(players@).contains(Some(q as int))) by {
            assert(t0.contains(q) == before.contains(Some(q as int)));
            if kept {
                vstd::seq_lib::lemma_seq_contains_after_push(t0, p->0, q);
                vstd::seq_lib::lemma_seq_contains_after_push(before, Some(p->0 as int), Some(q as int));
            } else {
                vstd::seq_lib::lemma_seq_contains_after_push(before, None::<int>, Some(q as int));
            }
        }
        i += 1;
    }
    assert(sv.take(i as int) =~= sv);
    let ghost saved = player_ints(players@);
    let ghost target = filled_players(saved, del, 0);
    let mut was_saved: Vec<bool> = Vec::new();
    let mut k: usize = 0;
    while k < players.len()
        invariant
            k <= players@.len(),
            was_saved@.len() == k,
            forall|m: int| 0 <= m < k ==> was_saved@[m] == (saved[m] is Some),
            saved == player_ints(players@),
        decreases players@.len() - k,
    {
        assert(player_ints(players@)[k as int] == match players@[k as int] {
            Some(n) => Some(n as int),
            None => None::<int>,
        });
        was_saved.push(players[k].is_some());
        k += 1;
    }
    let mut j: usize = 0;
    let mut full = false;
    while j < players.len() && !full
        invariant
            j <= players@.len(),
            players@.len() == pads@.len(),
            deliberate@.len() == pads@.len(),
            del.len() == pads@.len(),
            forall|m: int| 0 <= m < pads@.len() ==> deliberate@[m] == del[m],
            !full ==> filled_players(player_ints(players@), del, j as int) == target,
            full ==> player_ints(players@) == target,
            forall|q: usize|
                1 <= q <= 4 ==> (#[trigger] taken@.contains(q) <==> player_ints(players@).contains(
                    Some(q as int),
                )),
            forall|m: int| 0 <= m < taken@.len() ==> 1 <= #[trigger] taken@[m] <= 4,
        decreases players@.len() - j, if full { 0int } else { 1int },
    {
        let ghost cur = player_ints(players@);
        assert(cur[j as int] == match players@[j as int] {
            Some(n) => Some(n as int),
            None => None::<int>,
        });
        if players[j].is_some() || deliberate[j] {
            j += 1;
        } else {
            let free: Option<usize> = if !taken_contains(&taken, 1) {
                Some(1)
            } else if !taken_contains(&taken, 2) {
                Some(2)
            } else if !taken_contains(&taken, 3) {
                Some(3)
            } else if !taken_contains(&taken, 4) {
                Some(4)
            } else {
                None
            };
            assert(taken@.contains(1usize) == cur.contains(Some(1int)));
            assert(taken@.contains(2usize) == cur.contains(Some(2int)));
            assert(taken@.contains(3usize) == cur.contains(Some(3int)));
            assert(taken@.contains(4usize) == cur.contains(Some(4int)));
            match free {
                None => {
                    assert(first_free(cur) is None);
                    full = true;
                },
                Some(f) => {
                    assert(first_free(cur) == Some(f as int));
                    let ghost t0 = taken@;
                    players.set(j, Some(f));
                    taken.push(f);
                    assert(player_ints(players@) =~= cur.update(j as int, Some(f as int)));
                    assert forall|q: usize| 1 <= q <= 4 implies (#[trigger] taken@.contains(q)
                        <==> player_ints(players@).contains(Some(q as int))) by {
                        assert(t0.contains(q) == cur.contains(Some(q as int)));
                        vstd::seq_lib::lemma_seq_contains_after_push(t0, f, q);
                        lemma_update_none_contains(cur, j as int, f as int, q as int);
                    }
                    j += 1;
                },
            }
        }
    }
    assert(player_ints(players@) == target);
    // The pads with their players, and what to save.
    let mut out: Vec<ControllerInfo> = Vec::new();
    let mut writes: Vec<(String, String)> = Vec::new();
    let ghost ids = identities(pads@);
    let mut m: usize = 0;
    while m < pads.len()
        invariant
            m <= pads@.len(),
            players@.len() == pads@.len(),
            was_saved@.len() == pads@.len(),
            forall|x: int| 0 <= x < pads@.len() ==> was_saved@[x] == (saved[x] is Some),
            player_ints(players@) == target,
            ids == identities(pads@),
            target == players_spec(sv),
            saved == saved_players(sv),
            sv == setting_views(settings@),
            out@.len() == m,
            forall|x: int|
                0 <= x < m ==> {
                    &&& (#[trigger] out@[x]).id == pads@[x].id
                    &&& out@[x].identity == pads@[x].identity
                    &&& out@[x].name == pads@[x].name
                    &&& out@[x].index == pads@[x].index
                    &&& match out@[x].player {
                        Some(p) => target[x] == Some(p as int),
                        None => target[x] is None,
                    }
                },
            writes@.map_values(|w: (String, String)| (w.0@, w.1@)) == new_writes(ids, saved, target, m as int),
        decreases pads@.len() - m,
    {
        let pad = &pads[m];
        assert(player_ints(players@)[m as int] == match players@[m as int] {
            Some(n) => Some(n as int),
            None => None::<int>,
        });
        out.push(
            ControllerInfo {
                id: pad.id.clone(),
                identity: pad.identity.clone(),
                name: pad.name.clone(),
                player: players[m],
                index: pad.index,
            },
        );
        let ghost wb = writes@.map_values(|w: (String, String)| (w.0@, w.1@));
        if !was_saved[m] {
            if let Some(f) = players[m] {
                let key = pad_key(pad.identity.as_str());
                let val = string_from_chars(&decimal(f as u64));
                assert(ids[m as int] == pad.identity@);
                let ghost wv = (key@, val@);
                writes.push((key, val));
                assert(writes@.map_values(|w: (String, String)| (w.0@, w.1@)) =~= wb.push(wv));
            }
        }
        m += 1;
    }
    (out, writes)
}

/// What each player plays with: the joypad of every pad that has a player.
pub open spec fn bindings_spec(pads: Seq<ControllerInfo>) -> Seq<PlayerBinding>
    decreases pads.len(),
{
    if pads.len() == 0 {
        Seq::<PlayerBinding>::empty()
    } else {
        let r = bindings_spec(pads.drop_last());
        match pads.last().player {
            Some(p) => r.push(PlayerBinding { player: p, joypad_index: pads.last().index }),
            None => r,
        }
    }
}

pub fn player_bindings(pads: &Vec<ControllerInfo>) -> (r: Vec<PlayerBinding>)
    ensures
        r@ == bindings_spec(pads@),
{
    let mut out: Vec<PlayerBinding> = Vec::new();
    let mut i: usize = 0;
    while i < pads.len()
        invariant
            i <= pads@.len(),
            out@ == bindings_spec(pads@.take(i as int)),
        decreases pads@.len() - i,
    {
        assert(pads@.take(i + 1).drop_last() =~= pads@.take(i as int));
        assert(pads@.take(i + 1).last() == pads@[i as int]);
        if let Some(p) = pads[i].player {
            out.push(PlayerBinding { player: p, joypad_index: pads[i].index });
        }
        i += 1;
    }
    assert(pads@.take(i as int) =~= pads@);
    out
}


/// An optional setting value as a player number's text.
pub open spec fn player_text(p: Option<int>) -> Option<Seq<char>> {
    match p {
        Some(n) => if n >= 0 {
            Some(dec(n as nat))
        } else {
            None
        },
        None => None,
    }
}

/// The settings that move a player off the other pads that held it: each
/// other pad whose setting names `player` is given the player the pad
/// being assigned had, or nothing.
pub open spec fn swap_writes(
    identity: Seq<char>,
    player: int,
    mine: Option<int>,
    others: Seq<(Seq<char>, Option<Seq<char>>)>,
) -> Seq<(Seq<char>, Option<Seq<char>>)>
    decreases others.len(),
{
    if others.len() == 0 {
        Seq::<(Seq<char>, Option<Seq<char>>)>::empty()
    } else {
        let r = swap_writes(identity, player, mine, others.drop_last());
        let (id, s) = others.last();
        if id != identity && setting_player(s) == Some(player) {
            r.push((pad_key_spec(id), player_text(mine)))
        } else {
            r
        }
    }
}

/// What giving a pad to a player saves, or why it is refused: a player Den
/// does not drive is refused; a player is taken from whichever other pads
/// had it, which get the pad's old player in exchange, and then given;
/// nobody is saved as `none`.
pub open spec fn assign_pad_spec(
    identity: Seq<char>,
    player: Option<int>,
    mine: Option<Seq<char>>,
    others: Seq<(Seq<char>, Option<Seq<char>>)>,
) -> Option<Seq<(Seq<char>, Option<Seq<char>>)>> {
    match player {
        Some(p) => if !valid_player(p) {
            None
        } else {
            Some(
                swap_writes(identity, p, setting_player(mine), others).push(
                    (pad_key_spec(identity), Some(dec(p as nat))),
                ),
            )
        },
        None => Some(seq![(pad_key_spec(identity), Some("none"@))]),
    }
}

/// The refusal of a player Den does not drive.
pub open spec fn no_such_player(p: int) -> Seq<char> {
    "there is no player "@ + dec(p as nat) + "; Den drives 4"@
}

/// The views of a list of setting writes.
pub open spec fn write_views(v: Seq<(String, Option<String>)>) -> Seq<(Seq<char>, Option<Seq<char>>)> {
    v.map_values(|w: (String, Option<String>)| (w.0@, opt_view(w.1)))
}

/// The views of the other pads' identities and settings.
pub open spec fn other_views(v: Seq<(String, Option<String>)>) -> Seq<(Seq<char>, Option<Seq<char>>)> {
    v.map_values(|w: (String, Option<String>)| (w.0@, opt_view(w.1)))
}

fn decimal_string(n: usize) -> (r: String)
    ensures
        r@ == dec(n as nat),
{
    string_from_chars(&decimal(n as u64))
}

/// What giving the pad `identity` to `player` (or to nobody) saves, given
/// its own saved setting and every attached pad's identity and setting.
pub fn assign_pad(
    identity: &str,
    player: Option<usize>,
    mine: &Option<String>,
    others: &Vec<(String, Option<String>)>,
) -> (r: Result<Vec<(String, Option<String>)>, Error>)
    ensures
        match assign_pad_spec(
            identity@,
            match player {
                Some(p) => Some(p as int),
                None => None,
            },
            opt_view(*mine),
            other_views(others@),
        ) {
            Some(w) => r matches Ok(v) && write_views(v@) == w,
            None => r matches Err(Error::Unusable(m)) && m@ == no_such_player(player->0 as int),
        },
{
    match player {
        Some(p) => {
            if !(1 <= p && p <= MAX_PLAYERS) {
                let mut v: Vec<char> = Vec::new();
                push_str(&mut v, "there is no player ");
                let d = decimal(p as u64);
                push_chars(&mut v, &d);
                push_str(&mut v, "; Den drives 4");
                return Err(Error::Unusable(string_from_chars(&v)));
            }
            let mine_p = parse_player(mine);
            let ghost ov = other_views(others@);
            let id = chars_of(identity);
            let mut out: Vec<(String, Option<String>)> = Vec::new();
            let mut i: usize = 0;
            assert(ov.take(0) =~= Seq::<(Seq<char>, Option<Seq<char>>)>::empty());
            while i < others.len()
                invariant
                    i <= others@.len(),
                    ov == other_views(others@),
                    id@ == identity@,
                    match mine_p {
                        Some(n) => setting_player(opt_view(*mine)) == Some(n as int),
                        None => setting_player(opt_view(*mine)) is None,
                    },
                    write_views(out@) == swap_writes(
                        identity@,
                        p as int,
                        setting_player(opt_view(*mine)),
                        ov.take(i as int),
                    ),
                decreases others@.len() - i,
            {
                assert(ov.take(i + 1).drop_last() =~= ov.take(i as int));
                assert(ov.take(i + 1).last() == ov[i as int]);
                let (oid, oset) = &others[i];
                assert(ov[i as int] == (oid@, opt_view(*oset)));
                let theirs = parse_player(oset);
                let same = crate::text::same_chars(&chars_of(oid.as_str()), &id);
                if !same && theirs == Some(p) {
                    let val: Option<String> = match mine_p {
                        Some(n) => Some(decimal_string(n)),
                        None => None,
                    };
                    let ghost wb = write_views(out@);
                    let ghost wv = (pad_key_spec(oid@), opt_view(val));
                    assert(opt_view(val) == player_text(setting_player(opt_view(*mine))));
                    out.push((pad_key(oid.as_str()), val));
                    assert(write_views(out@) =~= wb.push(wv));
                }
                i += 1;
            }
            assert(ov.take(i as int) =~= ov);
            let ghost wb = write_views(out@);
            let own = pad_key(identity);
            let ghost wv = (own@, Some(dec(p as nat)));
            out.push((own, Some(decimal_string(p))));
            assert(write_views(out@) =~= wb.push(wv));
            Ok(out)
        },
        None => {
            let mut out: Vec<(String, Option<String>)> = Vec::new();
            out.push((pad_key(identity), Some(PAD_NOBODY.to_owned())));
            proof {
                reveal_strlit("none");
            }
            assert(write_views(out@) =~= seq![(pad_key_spec(identity@), Some("none"@))]);
            Ok(out)
        },
    }
}

/// Where a library's own identification index may be, in the order it is
/// looked for.
pub fn dat_candidates(library: &str) -> (r: Vec<String>)
    ensures
        r@.map_values(|s: String| s@) == seq![
            push(push(library@, "dat"@), "index.tsv"@),
            push(library@, "dat.tsv"@),
        ],
{
    let d = join(library, "dat");
    let a = join(d.as_str(), "index.tsv");
    let b = join(library, "dat.tsv");
    let mut out: Vec<String> = Vec::new();
    out.push(a);
    out.push(b);
    assert(out@.map_values(|s: String| s@) =~= seq![
        push(push(library@, "dat"@), "index.tsv"@),
        push(library@, "dat.tsv"@),
    ]);
    out
}

/// The library Den uses when none is named: `den` under the data
/// directory, or `den` where it runs.
pub fn default_library(data_dir: Option<&str>) -> (r: String)
    ensures
        r@ == match data_dir {
            Some(d) => push(d@, "den"@),
            None => "den"@,
        },
{
    match data_dir {
        Some(d) => join(d, "den"),
        None => "den".to_owned(),
    }
}


/// No two pads hold the same player, and every player held is one Den
/// drives.
pub open spec fn well_dealt(p: Seq<Option<int>>) -> bool {
    &&& forall|i: int| 0 <= i < p.len() && (#[trigger] p[i]) is Some ==> valid_player(p[i]->0)
    &&& forall|i: int, j: int|
        #![trigger p[i], p[j]]
        0 <= i < j < p.len() && p[i] is Some ==> p[i] != p[j]
}

proof fn lemma_saved_well_dealt(s: Seq<Option<Seq<char>>>)
    ensures
        saved_players(s).len() == s.len(),
        well_dealt(saved_players(s)),
    decreases s.len(),
{
    if s.len() > 0 {
        let r = saved_players(s.drop_last());
        lemma_saved_well_dealt(s.drop_last());
        let q = saved_players(s);
        match setting_player(s.last()) {
            Some(p) => if valid_player(p) && !r.contains(Some(p)) {
                assert(q == r.push(Some(p)));
                assert forall|i: int, j: int| 0 <= i < j < q.len() && q[i] is Some implies q[i] != q[j] by {
                    if j == r.len() {
                        assert(q[i] == r[i]);
                        if r[i] == Some(p) {
                            assert(r.contains(Some(p)));
                        }
                    } else {
                        assert(q[i] == r[i] && q[j] == r[j]);
                    }
                }
                assert forall|i: int| 0 <= i < q.len() && (#[trigger] q[i]) is Some implies valid_player(q[i]->0) by {
                    if i < r.len() {
                        assert(q[i] == r[i]);
                    }
                }
            } else {
                assert(q == r.push(None));
                assert forall|i: int, j: int| 0 <= i < j < q.len() && q[i] is Some implies q[i] != q[j] by {
                    if j < r.len() {
                        assert(q[i] == r[i] && q[j] == r[j]);
                    }
                }
                assert forall|i: int| 0 <= i < q.len() && (#[trigger] q[i]) is Some implies valid_player(q[i]->0) by {
                    if i < r.len() {
                        assert(q[i] == r[i]);
                    }
                }
            },
            None => {
                assert(q == r.push(None));
                assert forall|i: int, j: int| 0 <= i < j < q.len() && q[i] is Some implies q[i] != q[j] by {
                    if j < r.len() {
                        assert(q[i] == r[i] && q[j] == r[j]);
                    }
                }
                assert forall|i: int| 0 <= i < q.len() && (#[trigger] q[i]) is Some implies valid_player(q[i]->0) by {
                    if i < r.len() {
                        assert(q[i] == r[i]);
                    }
                }
            },
        }
    }
}

proof fn lemma_saved_none(s: Seq<Option<Seq<char>>>, k: int)
    requires
        0 <= k < s.len(),
        setting_player(s[k]) is None,
    ensures
        saved_players(s)[k] is None,
    decreases s.len(),
{
    lemma_saved_well_dealt(s);
    lemma_saved_well_dealt(s.drop_last());
    if k < s.len() - 1 {
        assert(s.drop_last()[k] == s[k]);
        lemma_saved_none(s.drop_last(), k);
        assert(saved_players(s)[k] == saved_players(s.drop_last())[k]);
    } else {
        assert(s.last() == s[k]);
    }
}

proof fn lemma_first_free(p: Seq<Option<int>>)
    ensures
        match first_free(p) {
            Some(f) => valid_player(f) && !p.contains(Some(f)),
            None => forall|y: int| valid_player(y) ==> p.contains(Some(y)),
        },
{
}

proof fn lemma_filled_well_dealt(p: Seq<Option<int>>, d: Seq<bool>, i: int)
    requires
        well_dealt(p),
        d.len() == p.len(),
        0 <= i <= p.len(),
        forall|k: int| 0 <= k < i && (#[trigger] p[k]) is None ==> d[k] || first_free(p) is None,
    ensures
        filled_players(p, d, i).len() == p.len(),
        well_dealt(filled_players(p, d, i)),
        forall|k: int|
            0 <= k < p.len() && (#[trigger] filled_players(p, d, i)[k]) is None ==> d[k] || first_free(
                filled_players(p, d, i),
            ) is None,
        forall|y: int| p.contains(Some(y)) ==> #[trigger] filled_players(p, d, i).contains(Some(y)),
        forall|k: int| 0 <= k < p.len() && d[k] && p[k] is None ==> (#[trigger] filled_players(p, d, i)[k]) is None,
        forall|k: int| 0 <= k < p.len() && p[k] is Some ==> (#[trigger] filled_players(p, d, i)[k]) == p[k],
    decreases p.len() - i,
{
    let q = filled_players(p, d, i);
    if i >= p.len() {
    } else if p[i] is Some || d[i] {
        lemma_filled_well_dealt(p, d, i + 1);
    } else {
        lemma_first_free(p);
        match first_free(p) {
            None => {},
            Some(f) => {
                let p2 = p.update(i, Some(f));
                assert forall|a: int, b: int| 0 <= a < b < p2.len() && p2[a] is Some implies p2[a] != p2[b] by {
                    if a == i {
                        if p2[b] == Some(f) {
                            assert(p[b] == Some(f));
                            assert(p.contains(Some(f)));
                        }
                    } else if b == i {
                        if p2[a] == Some(f) {
                            assert(p[a] == Some(f));
                            assert(p.contains(Some(f)));
                        }
                    } else {
                        assert(p2[a] == p[a] && p2[b] == p[b]);
                    }
                }
                assert forall|a: int| 0 <= a < p2.len() && (#[trigger] p2[a]) is Some implies valid_player(
                    p2[a]->0,
                ) by {
                    if a != i {
                        assert(p2[a] == p[a]);
                    }
                }
                assert forall|k: int| 0 <= k < i + 1 && (#[trigger] p2[k]) is None implies d[k] || first_free(
                    p2,
                ) is None by {
                    assert(k != i);
                    assert(p2[k] == p[k]);
                }
                lemma_filled_well_dealt(p2, d, i + 1);
                assert forall|y: int| p.contains(Some(y)) implies #[trigger] q.contains(Some(y)) by {
                    lemma_update_none_contains(p, i, f, y);
                }
                assert forall|k: int| 0 <= k < p.len() && d[k] && p[k] is None implies (#[trigger] q[k]) is None by {
                    assert(k != i);
                    assert(p2[k] == p[k]);
                }
                assert forall|k: int| 0 <= k < p.len() && p[k] is Some implies (#[trigger] q[k]) == p[k] by {
                    assert(k != i);
                    assert(p2[k] == p[k]);
                }
            },
        }
    }
}

/// Who plays with which pad is dealt fairly: no two pads hold the same
/// player, every player held is one Den drives, a pad is left without one
/// only when it was given to nobody or all four players are taken, and a
/// pad given to nobody stays with nobody.
pub proof fn lemma_players_are_dealt_fairly(settings: Seq<Option<Seq<char>>>)
    ensures
        players_spec(settings).len() == settings.len(),
        well_dealt(players_spec(settings)),
        forall|k: int|
            0 <= k < settings.len() && (#[trigger] players_spec(settings)[k]) is None ==> settings[k] == Some(
                "none"@,
            ) || (forall|y: int| valid_player(y) ==> players_spec(settings).contains(Some(y))),
        forall|k: int|
            0 <= k < settings.len() && settings[k] == Some("none"@) ==> (#[trigger] players_spec(settings)[k]) is None,
{
    let sp = saved_players(settings);
    let d = settings.map_values(|s: Option<Seq<char>>| s == Some("none"@));
    lemma_saved_well_dealt(settings);
    lemma_filled_well_dealt(sp, d, 0);
    let q = players_spec(settings);
    lemma_first_free(q);
    assert forall|k: int| 0 <= k < settings.len() && (#[trigger] q[k]) is None implies settings[k] == Some(
        "none"@,
    ) || (forall|y: int| valid_player(y) ==> q.contains(Some(y))) by {
        assert(d[k] == (settings[k] == Some("none"@)));
    }
    reveal_strlit("none");
    assert(!digit_ok("none"@[0], false));
    assert(setting_player(Some("none"@)) is None);
    assert forall|k: int| 0 <= k < settings.len() && settings[k] == Some("none"@) implies (#[trigger] q[k]) is None by {
        assert(d[k]);
        lemma_saved_none(settings, k);
    }
}


/// A settings store after a list of writes, each in turn: a value sets its
/// key, nothing clears it.
pub open spec fn after_writes(
    store: Map<Seq<char>, Option<Seq<char>>>,
    writes: Seq<(Seq<char>, Option<Seq<char>>)>,
) -> Map<Seq<char>, Option<Seq<char>>>
    decreases writes.len(),
{
    if writes.len() == 0 {
        store
    } else {
        after_writes(store, writes.drop_last()).insert(writes.last().0, writes.last().1)
    }
}

proof fn lemma_pad_keys_differ(a: Seq<char>, b: Seq<char>)
    requires
        a != b,
    ensures
        pad_key_spec(a) != pad_key_spec(b),
{
    let n = "pad_player:"@.len();
    if pad_key_spec(a) == pad_key_spec(b) {
        assert(pad_key_spec(a).skip(n as int) =~= a);
        assert(pad_key_spec(b).skip(n as int) =~= b);
    }
}

/// Whether the other pad `j` held the player being given.
pub open spec fn held(others: Seq<(Seq<char>, Option<Seq<char>>)>, j: int, player: int) -> bool {
    setting_player(others[j].1) == Some(player)
}

proof fn lemma_swap_writes_land(
    identity: Seq<char>,
    player: int,
    mine: Option<int>,
    others: Seq<(Seq<char>, Option<Seq<char>>)>,
    store: Map<Seq<char>, Option<Seq<char>>>,
)
    requires
        forall|j: int| 0 <= j < others.len() ==> (#[trigger] others[j]).0 != identity,
        forall|i: int, j: int|
            #![trigger others[i], others[j]]
            0 <= i < j < others.len() ==> others[i].0 != others[j].0,
    ensures
        forall|j: int|
            0 <= j < others.len() && held(others, j, player) ==> #[trigger] after_writes(
                store,
                swap_writes(identity, player, mine, others),
            ).contains_key(pad_key_spec(others[j].0)) && after_writes(
                store,
                swap_writes(identity, player, mine, others),
            )[pad_key_spec(others[j].0)] == player_text(mine),
        forall|k: Seq<char>|
            (forall|j: int| 0 <= j < others.len() && held(others, j, player) ==> k != pad_key_spec(others[j].0))
                ==> #[trigger] after_writes(store, swap_writes(identity, player, mine, others)).contains_key(k)
                == store.contains_key(k) && (store.contains_key(k) ==> after_writes(
                store,
                swap_writes(identity, player, mine, others),
            )[k] == store[k]),
    decreases others.len(),
{
    if others.len() > 0 {
        let o = others.drop_last();
        let n = others.len() - 1;
        assert forall|j: int| 0 <= j < o.len() implies (#[trigger] o[j]).0 != identity by {
            assert(o[j] == others[j]);
        }
        assert forall|i: int, j: int| 0 <= i < j < o.len() implies (#[trigger] o[i]).0 != (#[trigger] o[j]).0 by {
            assert(o[i] == others[i] && o[j] == others[j]);
        }
        lemma_swap_writes_land(identity, player, mine, o, store);
        let w0 = swap_writes(identity, player, mine, o);
        let s0 = after_writes(store, w0);
        let w = swap_writes(identity, player, mine, others);
        let last = others.last();
        assert(last == others[n]);
        if last.0 != identity && setting_player(last.1) == Some(player) {
            let x = (pad_key_spec(last.0), player_text(mine));
            assert(w == w0.push(x));
            assert(w.drop_last() =~= w0);
            assert(after_writes(store, w) == s0.insert(x.0, x.1));
            assert forall|j: int| 0 <= j < others.len() && held(others, j, player) implies #[trigger] after_writes(
                store,
                w,
            ).contains_key(pad_key_spec(others[j].0)) && after_writes(store, w)[pad_key_spec(others[j].0)]
                == player_text(mine) by {
                if j < n {
                    assert(o[j] == others[j]);
                    assert(held(o, j, player));
                    lemma_pad_keys_differ(others[j].0, last.0);
                }
            }
            assert forall|k: Seq<char>|
                (forall|j: int| 0 <= j < others.len() && held(others, j, player) ==> k != pad_key_spec(others[j].0))
                implies #[trigger] after_writes(store, w).contains_key(k) == store.contains_key(k) && (
            store.contains_key(k) ==> after_writes(store, w)[k] == store[k]) by {
                assert(held(others, n, player));
                assert(k != x.0);
                assert forall|j: int| 0 <= j < o.len() && held(o, j, player) implies k != pad_key_spec(o[j].0) by {
                    assert(o[j] == others[j]);
                    assert(held(others, j, player));
                }
            }
        } else {
            assert(w == w0);
            assert(after_writes(store, w) == s0);
            assert forall|j: int| 0 <= j < others.len() && held(others, j, player) implies #[trigger] after_writes(
                store,
                w,
            ).contains_key(pad_key_spec(others[j].0)) && after_writes(store, w)[pad_key_spec(others[j].0)]
                == player_text(mine) by {
                if j < n {
                    assert(o[j] == others[j]);
                    assert(held(o, j, player));
                } else {
                    assert(last.0 != identity);
                }
            }
            assert forall|k: Seq<char>|
                (forall|j: int| 0 <= j < others.len() && held(others, j, player) ==> k != pad_key_spec(others[j].0))
                implies #[trigger] after_writes(store, w).contains_key(k) == store.contains_key(k) && (
            store.contains_key(k) ==> after_writes(store, w)[k] == store[k]) by {
                assert forall|j: int| 0 <= j < o.len() && held(o, j, player) implies k != pad_key_spec(o[j].0) by {
                    assert(o[j] == others[j]);
                    assert(held(others, j, player));
                }
                assert(s0.contains_key(k) == store.contains_key(k));
            }
        }
    }
}

/// Giving a pad a player another pad holds swaps them: once what
/// `assign_pad` saves is written, the pad holds the player, every other pad
/// that held it holds the pad's old player (or nothing), and no other
/// setting changes.
pub proof fn lemma_giving_a_held_player_swaps(
    identity: Seq<char>,
    player: int,
    mine: Option<Seq<char>>,
    others: Seq<(Seq<char>, Option<Seq<char>>)>,
    store: Map<Seq<char>, Option<Seq<char>>>,
)
    requires
        valid_player(player),
        forall|j: int| 0 <= j < others.len() ==> (#[trigger] others[j]).0 != identity,
        forall|i: int, j: int|
            #![trigger others[i], others[j]]
            0 <= i < j < others.len() ==> others[i].0 != others[j].0,
    ensures
        assign_pad_spec(identity, Some(player), mine, others) is Some,
        ({
            let after = after_writes(store, assign_pad_spec(identity, Some(player), mine, others)->0);
            &&& after.contains_key(pad_key_spec(identity))
            &&& after[pad_key_spec(identity)] == Some(dec(player as nat))
            &&& forall|j: int|
                0 <= j < others.len() && held(others, j, player) ==> after.contains_key(
                    pad_key_spec(#[trigger] others[j].0),
                ) && after[pad_key_spec(others[j].0)] == player_text(setting_player(mine))
            &&& forall|k: Seq<char>|
                k != pad_key_spec(identity) && (forall|j: int|
                    0 <= j < others.len() && held(others, j, player) ==> k != pad_key_spec(others[j].0))
                    ==> #[trigger] after.contains_key(k) == store.contains_key(k) && (store.contains_key(k)
                    ==> after[k] == store[k])
        }),
{
    let m = setting_player(mine);
    let w0 = swap_writes(identity, player, m, others);
    let x = (pad_key_spec(identity), Some(dec(player as nat)));
    let w = w0.push(x);
    assert(assign_pad_spec(identity, Some(player), mine, others) == Some(w));
    assert(w.drop_last() =~= w0);
    lemma_swap_writes_land(identity, player, m, others, store);
    let after = after_writes(store, w);
    assert(after == after_writes(store, w0).insert(x.0, x.1));
    assert forall|j: int|
        0 <= j < others.len() && held(others, j, player) implies after.contains_key(
        pad_key_spec(#[trigger] others[j].0),
    ) && after[pad_key_spec(others[j].0)] == player_text(m) by {
        lemma_pad_keys_differ(others[j].0, identity);
    }
}


/// The keyboard shown is the one written: each row of the legend shows the
/// key of one row of the keyboard tables, and every session's
/// configuration binds that same row's key.
pub proof fn lemma_the_keyboard_shown_is_the_one_written(
    save_dir: Seq<char>,
    state_dir: Seq<char>,
    core_dir: Option<Seq<char>>,
    theirs: Option<Seq<char>>,
    players: Seq<PlayerBinding>,
)
    ensures
        keyboard_legend().len() == scheme_spec().len() + chrome_spec().len(),
        forall|i: int|
            0 <= i < scheme_spec().len() ==> {
                &&& keyboard_legend()[i] == (
                    button_label_spec((#[trigger] scheme_spec()[i]).0),
                    scheme_spec()[i].2,
                )
                &&& contains_seq(
                    config_spec(save_dir, state_dir, core_dir, theirs, players),
                    setting("input_player1_"@ + scheme_spec()[i].0, scheme_spec()[i].1),
                )
            },
        forall|i: int|
            0 <= i < chrome_spec().len() ==> {
                &&& keyboard_legend()[scheme_spec().len() + i] == (
                    chrome_label_spec((#[trigger] chrome_spec()[i]).0),
                    chrome_spec()[i].2,
                )
                &&& contains_seq(
                    config_spec(save_dir, state_dir, core_dir, theirs, players),
                    setting(chrome_spec()[i].0, chrome_spec()[i].1),
                )
            },
{
    lemma_every_session_has_the_keys(save_dir, state_dir, core_dir, theirs, players);
}


/// The player a saved setting names, when it is one Den drives.
pub open spec fn named_player(v: Option<Seq<char>>) -> Option<int> {
    match setting_player(v) {
        Some(p) => if valid_player(p) {
            Some(p)
        } else {
            None
        },
        None => None,
    }
}

/// No player Den drives is named by the saved settings of two pads.
pub open spec fn distinct_named(s: Seq<Option<Seq<char>>>) -> bool {
    forall|i: int, j: int|
        #![trigger s[i], s[j]]
        0 <= i < j < s.len() && named_player(s[i]) is Some ==> named_player(s[i]) != named_player(s[j])
}

proof fn lemma_saved_honours_distinct(s: Seq<Option<Seq<char>>>)
    requires
        distinct_named(s),
    ensures
        saved_players(s).len() == s.len(),
        forall|k: int| 0 <= k < s.len() ==> #[trigger] saved_players(s)[k] == named_player(s[k]),
    decreases s.len(),
{
    lemma_saved_well_dealt(s);
    if s.len() > 0 {
        let d = s.drop_last();
        assert(distinct_named(d)) by {
            assert forall|i: int, j: int| 0 <= i < j < d.len() && named_player(d[i]) is Some implies named_player(
                d[i],
            ) != named_player(d[j]) by {
                assert(d[i] == s[i] && d[j] == s[j]);
            }
        }
        lemma_saved_honours_distinct(d);
        let r = saved_players(d);
        let n = s.len() - 1;
        assert(s.last() == s[n]);
        if let Some(p) = named_player(s[n]) {
            assert(!r.contains(Some(p))) by {
                if r.contains(Some(p)) {
                    let i = choose|i: int| 0 <= i < r.len() && r[i] == Some(p);
                    assert(d[i] == s[i]);
                    assert(named_player(s[i]) == Some(p));
                }
            }
        }
        assert forall|k: int| 0 <= k < s.len() implies #[trigger] saved_players(s)[k] == named_player(s[k]) by {
            if k < n {
                assert(d[k] == s[k]);
                assert(saved_players(s)[k] == r[k]);
            }
        }
    }
}

/// With distinct saved players, every pad holds the player its setting
/// names, when that is one Den drives.
proof fn lemma_named_players_hold(s: Seq<Option<Seq<char>>>)
    requires
        distinct_named(s),
    ensures
        forall|k: int|
            0 <= k < s.len() && named_player(s[k]) is Some ==> #[trigger] players_spec(s)[k] == named_player(s[k]),
{
    lemma_saved_honours_distinct(s);
    lemma_saved_well_dealt(s);
    let d = s.map_values(|v: Option<Seq<char>>| v == Some("none"@));
    lemma_filled_well_dealt(saved_players(s), d, 0);
    assert forall|k: int| 0 <= k < s.len() && named_player(s[k]) is Some implies #[trigger] players_spec(s)[k]
        == named_player(s[k]) by {
        assert(saved_players(s)[k] == named_player(s[k]));
    }
}

proof fn lemma_dec_reads_back(n: nat)
    ensures
        dec(n).len() > 0,
        dec(n)[0] != '+',
        crate::input::all_digits(dec(n), false),
        crate::input::digits_value(dec(n), 10, false) == n,
    decreases n,
{
    let t = dec(n);
    if n < 10 {
        assert(t == seq![crate::text::digit(n)]);
        assert(t.drop_last().len() == 0);
        assert(crate::input::digits_value(t.drop_last(), 10, false) == 0);
        assert(t.last() == crate::text::digit(n));
        assert(crate::input::dec_val(crate::text::digit(n)) == n);
    } else {
        lemma_dec_reads_back(n / 10);
        let h = dec(n / 10);
        let d = (n % 10) as nat;
        assert(t == h.push(crate::text::digit(d)));
        assert(t.drop_last() =~= h);
        assert(t.last() == crate::text::digit(d));
        assert(crate::input::dec_val(crate::text::digit(d)) == d);
        assert(t[0] == h[0]);
        assert forall|i: int| 0 <= i < t.len() implies crate::input::digit_ok(#[trigger] t[i], false) by {
            if i < h.len() {
                assert(t[i] == h[i]);
            }
        }
        assert((n / 10) * 10 + d == n);
    }
}

proof fn lemma_digits_nonneg(t: Seq<char>)
    requires
        crate::input::all_digits(t, false),
    ensures
        crate::input::digits_value(t, 10, false) >= 0,
    decreases t.len(),
{
    if t.len() > 0 {
        assert forall|i: int| 0 <= i < t.drop_last().len() implies crate::input::digit_ok(
            #[trigger] t.drop_last()[i],
            false,
        ) by {
            assert(t.drop_last()[i] == t[i]);
        }
        lemma_digits_nonneg(t.drop_last());
        assert(crate::input::digit_ok(t[t.len() - 1], false));
    }
}

proof fn lemma_player_in_range(v: Option<Seq<char>>)
    ensures
        setting_player(v) matches Some(q) ==> 0 <= q <= usize::MAX,
{
    if let Some(s) = v {
        let t = if s.len() > 0 && s[0] == '+' {
            s.skip(1)
        } else {
            s
        };
        if t.len() > 0 && crate::input::all_digits(t, false) {
            lemma_digits_nonneg(t);
        }
    }
}

proof fn lemma_number_reads_back(n: int)
    requires
        0 <= n <= usize::MAX,
    ensures
        setting_player(Some(dec(n as nat))) == Some(n),
        player_text(Some(n)) == Some(dec(n as nat)),
{
    lemma_dec_reads_back(n as nat);
    assert(dec(n as nat).len() > 0 && dec(n as nat)[0] != '+');
}

/// The saved settings once a pad `t` is given `player`: it names the
/// player, every other pad that named it names `t`'s old player instead
/// (or nothing), and the rest are as they were.
pub open spec fn swapped(s: Seq<Option<Seq<char>>>, t: int, player: int) -> Seq<Option<Seq<char>>> {
    Seq::new(
        s.len(),
        |j: int|
            if j == t {
                Some(dec(player as nat))
            } else if setting_player(s[j]) == Some(player) {
                player_text(setting_player(s[t]))
            } else {
                s[j]
            },
    )
}

/// A setting as a store holds it: absent is nothing saved.
pub open spec fn setting_in(store: Map<Seq<char>, Option<Seq<char>>>, k: Seq<char>) -> Option<Seq<char>> {
    if store.contains_key(k) {
        store[k]
    } else {
        None
    }
}

/// The other pads, as `assign_pad` is handed them: every pad but `t`, in
/// order, with its identity and setting.
pub open spec fn others_of(ids: Seq<Seq<char>>, s: Seq<Option<Seq<char>>>, t: int) -> Seq<
    (Seq<char>, Option<Seq<char>>),
> {
    Seq::new(
        (s.len() - 1) as nat,
        |i: int|
            if i < t {
                (ids[i], s[i])
            } else {
                (ids[i + 1], s[i + 1])
            },
    )
}

/// The settings of the pads after a list of writes.
pub open spec fn settings_after(
    store: Map<Seq<char>, Option<Seq<char>>>,
    ids: Seq<Seq<char>>,
    writes: Seq<(Seq<char>, Option<Seq<char>>)>,
) -> Seq<Option<Seq<char>>> {
    ids.map_values(|id: Seq<char>| setting_in(after_writes(store, writes), pad_key_spec(id)))
}

proof fn lemma_writes_give_swapped(
    ids: Seq<Seq<char>>,
    s: Seq<Option<Seq<char>>>,
    store: Map<Seq<char>, Option<Seq<char>>>,
    t: int,
    player: int,
)
    requires
        ids.len() == s.len(),
        0 <= t < s.len(),
        valid_player(player),
        forall|i: int, j: int| #![trigger ids[i], ids[j]] 0 <= i < j < ids.len() ==> ids[i] != ids[j],
        forall|j: int| 0 <= j < ids.len() ==> setting_in(store, pad_key_spec(#[trigger] ids[j])) == s[j],
    ensures
        assign_pad_spec(ids[t], Some(player), s[t], others_of(ids, s, t)) is Some,
        settings_after(store, ids, assign_pad_spec(ids[t], Some(player), s[t], others_of(ids, s, t))->0)
            =~= swapped(s, t, player),
{
    let o = others_of(ids, s, t);
    let idt = ids[t];
    assert forall|j: int| 0 <= j < o.len() implies (#[trigger] o[j]).0 != idt by {
        if j < t {
            assert(ids[j] != ids[t]);
        } else {
            assert(ids[t] != ids[j + 1]);
        }
    }
    assert forall|i: int, j: int| 0 <= i < j < o.len() implies (#[trigger] o[i]).0 != (#[trigger] o[j]).0 by {
        let a = if i < t { i } else { i + 1 };
        let b = if j < t { j } else { j + 1 };
        assert(o[i].0 == ids[a] && o[j].0 == ids[b]);
        assert(a < b);
    }
    lemma_giving_a_held_player_swaps(idt, player, s[t], o, store);
    let w = assign_pad_spec(idt, Some(player), s[t], o)->0;
    let after = after_writes(store, w);
    let sa = settings_after(store, ids, w);
    let sw = swapped(s, t, player);
    assert forall|j: int| 0 <= j < s.len() implies #[trigger] sa[j] == sw[j] by {
        assert(sa[j] == setting_in(after, pad_key_spec(ids[j])));
        if j == t {
        } else {
            let i = if j < t { j } else { j - 1 };
            assert(o[i] == (ids[j], s[j]));
            if setting_player(s[j]) == Some(player) {
                assert(held(o, i, player));
            } else {
                let k = pad_key_spec(ids[j]);
                lemma_pad_keys_differ(ids[j], idt);
                assert forall|m: int| 0 <= m < o.len() && held(o, m, player) implies k != pad_key_spec(o[m].0) by {
                    let c = if m < t { m } else { m + 1 };
                    assert(o[m] == (ids[c], s[c]));
                    assert(c != j);
                    lemma_pad_keys_differ(ids[j], ids[c]);
                }
                assert(after.contains_key(k) == store.contains_key(k));
            }
        }
    }
}

/// A player given to a pad is what the next look at the controllers shows:
/// while the saved settings name each player Den drives at most once, every
/// pad holds the player its setting names; giving pad `t` a player and
/// writing what `assign_pad` saves leaves pad `t` holding that player, the
/// pad that named it holding `t`'s old player (when `t` had one), and every
/// other pad with a player holding the same one as before.
pub proof fn lemma_a_swap_is_seen_on_the_next_look(
    ids: Seq<Seq<char>>,
    settings: Seq<Option<Seq<char>>>,
    store: Map<Seq<char>, Option<Seq<char>>>,
    t: int,
    player: int,
)
    requires
        ids.len() == settings.len(),
        0 <= t < settings.len(),
        valid_player(player),
        forall|i: int, j: int| #![trigger ids[i], ids[j]] 0 <= i < j < ids.len() ==> ids[i] != ids[j],
        forall|j: int| 0 <= j < ids.len() ==> setting_in(store, pad_key_spec(#[trigger] ids[j])) == settings[j],
        distinct_named(settings),
    ensures
        forall|k: int|
            0 <= k < settings.len() && named_player(settings[k]) is Some ==> #[trigger] players_spec(settings)[k]
                == named_player(settings[k]),
        assign_pad_spec(ids[t], Some(player), settings[t], others_of(ids, settings, t)) is Some,
        ({
            let after = settings_after(
                store,
                ids,
                assign_pad_spec(ids[t], Some(player), settings[t], others_of(ids, settings, t))->0,
            );
            &&& players_spec(after)[t] == Some(player)
            &&& forall|j: int|
                0 <= j < settings.len() && j != t && named_player(settings[j]) == Some(player) && named_player(
                    settings[t],
                ) is Some ==> #[trigger] players_spec(after)[j] == named_player(settings[t])
            &&& forall|j: int|
                0 <= j < settings.len() && j != t && named_player(settings[j]) is Some && named_player(
                    settings[j],
                ) != Some(player) ==> #[trigger] players_spec(after)[j] == players_spec(settings)[j]
        }),
{
    lemma_writes_give_swapped(ids, settings, store, t, player);
    let w = assign_pad_spec(ids[t], Some(player), settings[t], others_of(ids, settings, t))->0;
    let after = settings_after(store, ids, w);
    let sw = swapped(settings, t, player);
    assert(after == sw);
    lemma_number_reads_back(player);
    lemma_named_players_hold(settings);
    let m = named_player(settings[t]);
    assert forall|j: int| 0 <= j < sw.len() implies #[trigger] named_player(sw[j]) == (if j == t {
        Some(player)
    } else if setting_player(settings[j]) == Some(player) {
        m
    } else {
        named_player(settings[j])
    }) by {
        if j != t && setting_player(settings[j]) == Some(player) {
            match setting_player(settings[t]) {
                Some(q) => {
                    lemma_player_in_range(settings[t]);
                    lemma_number_reads_back(q);
                },
                None => {},
            }
        }
    }
    assert(distinct_named(sw)) by {
        assert forall|i: int, j: int| 0 <= i < j < sw.len() && named_player(sw[i]) is Some implies named_player(
            sw[i],
        ) != named_player(sw[j]) by {
            if i != t && j != t {
                assert(settings[i] == settings[i] && settings[j] == settings[j]);
            }
            if i < t {
                assert(named_player(settings[i]) is Some ==> named_player(settings[i]) != named_player(settings[t]));
            } else if i > t {
                assert(named_player(settings[t]) is Some ==> named_player(settings[t]) != named_player(settings[i]));
            }
            if j < t {
                assert(named_player(settings[j]) is Some ==> named_player(settings[j]) != named_player(settings[t]));
            } else if j > t {
                assert(named_player(settings[t]) is Some ==> named_player(settings[t]) != named_player(settings[j]));
            }
        }
    }
    lemma_named_players_hold(sw);
}

} // verus!
