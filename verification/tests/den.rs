use den::config::MAX_PLAYERS;
use den::db::{game_columns, list_games_query, row_sql, session_duration, Game};
use den::den::{
    assign_pad, assign_players, button_label, chrome_label, core_for, core_status, external_only, keyboard_bindings,
    launch_core, pad_key, player_bindings, retroarch_status, Error,
};
use den::input::ControllerInfo;
use den::runner::{Found, RunnerError, Source};

fn game(system: &str, core: Option<&str>) -> Game {
    Game {
        id: 7,
        title: "Some Game".into(),
        system: system.into(),
        path: "/nowhere/game.iso".into(),
        hash: None,
        size: None,
        status: "added".into(),
        core: core.map(|c| c.to_string()),
        art: None,
        created_at: 0,
        updated_at: 0,
        playtime: 0,
        last_played: None,
    }
}

fn pad(id: &str, identity: &str, index: usize) -> ControllerInfo {
    ControllerInfo {
        id: id.to_string(),
        identity: identity.to_string(),
        name: identity.to_string(),
        player: None,
        index: Some(index),
    }
}

#[test]
fn an_external_only_system_is_refused_by_name() {
    let err = launch_core(&game("PlayStation 2", None)).unwrap_err();
    assert!(matches!(err, Error::External(_)));
    let said = err.message();
    assert!(said.contains("PlayStation 2"), "unhelpful message: {said}");
    assert_eq!(launch_core(&game("N64", None)).unwrap(), "mupen64plus_next");
    assert_eq!(launch_core(&game("N64", Some("parallel_n64"))).unwrap(), "parallel_n64");
}

#[test]
fn a_pad_plugged_in_is_player_one_without_being_asked() {
    let (pads, writes) = assign_players(vec![pad("js0", "045e:028e:pad", 0)], &vec![None]);
    assert_eq!(pads[0].player, Some(1));
    assert_eq!(writes, vec![("pad_player:045e:028e:pad".to_string(), "1".to_string())]);

    // Once saved, it stays player one, and a second pad gets the next number.
    let (pads, writes) = assign_players(
        vec![pad("js0", "045e:028e:pad", 0), pad("js1", "2dc8:6001:pro", 1)],
        &vec![Some("1".to_string()), None],
    );
    assert_eq!(pads[0].player, Some(1));
    assert_eq!(pads[1].player, Some(2));
    assert_eq!(writes, vec![("pad_player:2dc8:6001:pro".to_string(), "2".to_string())]);
}

#[test]
fn assigning_a_player_somebody_else_holds_swaps_them() {
    let others = vec![("one".to_string(), Some("1".to_string())), ("two".to_string(), Some("2".to_string()))];
    let writes = assign_pad("two", Some(1), &Some("2".to_string()), &others).unwrap();
    assert_eq!(
        writes,
        vec![
            ("pad_player:one".to_string(), Some("2".to_string())),
            ("pad_player:two".to_string(), Some("1".to_string())),
        ]
    );
    let writes = assign_pad("one", None, &Some("2".to_string()), &others).unwrap();
    assert_eq!(writes, vec![("pad_player:one".to_string(), Some("none".to_string()))]);

    // "Nobody" sticks: a pad saved as none is not handed a free number.
    let (pads, writes) = assign_players(
        vec![pad("js0", "one", 0), pad("js1", "two", 1)],
        &vec![Some("none".to_string()), Some("1".to_string())],
    );
    assert_eq!(pads[0].player, None);
    assert_eq!(pads[1].player, Some(1));
    assert!(writes.is_empty());

    match assign_pad("two", Some(MAX_PLAYERS + 1), &None, &others) {
        Err(Error::Unusable(m)) => assert_eq!(m, "there is no player 5; Den drives 4"),
        other => panic!("expected a refusal, got {other:?}"),
    }
}

#[test]
fn a_saved_player_somebody_earlier_holds_is_not_given_twice() {
    let (pads, writes) = assign_players(
        vec![pad("js0", "a", 0), pad("js1", "b", 1), pad("js2", "c", 2)],
        &vec![Some("2".to_string()), Some("2".to_string()), Some("9".to_string())],
    );
    assert_eq!(pads[0].player, Some(2));
    assert_eq!(pads[1].player, Some(1));
    assert_eq!(pads[2].player, Some(3));
    assert_eq!(writes.len(), 2);
    let bindings = player_bindings(&pads);
    assert_eq!(bindings.len(), 3);
    assert_eq!(bindings[1].player, 1);
    assert_eq!(bindings[1].joypad_index, Some(1));
}

#[test]
fn the_keyboard_scheme_shown_is_the_one_written() {
    let keys = keyboard_bindings();
    assert_eq!(keys.len(), 17);
    assert_eq!(keys[0].action, "D-pad Up");
    assert_eq!(keys[0].key, "Up");
    assert_eq!(keys[4].action, "B button");
    assert_eq!(keys[4].key, "Z");
    assert_eq!(keys[8].action, "L shoulder");
    assert_eq!(keys[10].action, "Start");
    assert_eq!(keys[11].action, "Select");
    assert_eq!(keys[11].key, "Right Shift");
    assert_eq!(keys[12].action, "RetroArch menu");
    assert_eq!(keys[13].action, "Quit back to Den");
    assert_eq!(keys[13].key, "Escape");
    assert_eq!(keys[16].action, "Windowed / fullscreen");
    assert_eq!(button_label("turbo"), "turbo");
    assert_eq!(chrome_label("input_hold_fast_forward"), "input_hold_fast_forward");
}

#[test]
fn a_core_status_says_what_is_known() {
    let s = core_status(&game("N64", None), Some(true));
    assert_eq!(s.name, "mupen64plus_next");
    assert_eq!(s.installed, Some(true));
    assert!(s.unsupported.is_none());

    let s = core_status(&game("Wii", None), Some(true));
    assert_eq!(s.name, "dolphin");
    assert_eq!(s.installed, None);
    assert_eq!(s.unsupported.as_deref(), Some("Wii needs an external emulator, which Den does not drive yet"));

    let s = core_status(&game("Atari", None), Some(true));
    assert_eq!(s.name, "");
    assert_eq!(s.installed, Some(false));

    assert_eq!(core_for(&game("Atari", None)), "");
    assert_eq!(external_only("GameCube").is_some(), true);
    assert_eq!(external_only("SNES"), None);
    assert_eq!(pad_key("abc"), "pad_player:abc");
}

#[test]
fn retroarch_status_reports_what_was_found_or_why_not() {
    let ok: Result<Found, RunnerError> = Ok(Found { path: "/usr/bin/retroarch".into(), source: Source::System });
    let s = retroarch_status(vec!["/a".into()], false, "/lib/_runtime".into(), &ok);
    assert!(s.available);
    assert_eq!(s.path.as_deref(), Some("/usr/bin/retroarch"));
    assert_eq!(s.source.as_deref(), Some("system"));
    assert!(s.problem.is_none());

    let err: Result<Found, RunnerError> = Err(RunnerError::NotFound);
    let s = retroarch_status(Vec::new(), true, "/lib/_runtime".into(), &err);
    assert!(!s.available);
    assert!(s.chosen);
    assert!(s.problem.unwrap().starts_with("RetroArch was not found"));
}

#[test]
fn every_error_says_what_it_is() {
    assert_eq!(Error::NotFound.message(), "game not found");
    assert_eq!(Error::Db("locked".into()).message(), "database error: locked");
    assert_eq!(Error::Io("gone".into()).message(), "io error: gone");
    assert_eq!(
        Error::External("Wii".into()).message(),
        "external emulator profile required for Wii (not wired in v1)"
    );
    assert_eq!(Error::Runner(RunnerError::Other("x".into())).message(), "runner error: x");
    assert_eq!(Error::Runner(RunnerError::Io("y".into())).message(), "runner error: io error: y");
    assert_eq!(
        Error::Intake(den::intake::IntakeError::Io("z".into())).message(),
        "intake error: io error: z"
    );
}

#[test]
fn the_listing_asks_for_what_the_filters_say() {
    let q = list_games_query("", None);
    assert!(q.args.is_empty());
    assert!(q.sql.ends_with(" FROM games g  ORDER BY g.title COLLATE NOCASE"));
    let q = list_games_query("sonic", Some("Genesis"));
    assert_eq!(q.args, vec!["%sonic%".to_string(), "Genesis".to_string()]);
    assert!(q.sql.contains("WHERE g.title LIKE ?1 ESCAPE '\\' AND g.system = ?2 ORDER BY"));
    let q = list_games_query("", Some("NES"));
    assert!(q.sql.contains(" WHERE g.system = ?1 ORDER BY"));
    assert!(row_sql("WHERE g.id = ?1").starts_with("SELECT g.id, g.title, g.system"));
    assert!(game_columns("x").contains("s.game_id = x.id), 0)"));
    assert_eq!(session_duration(100, 40), 60);
    assert_eq!(session_duration(40, 100), 0);
}

#[test]
fn retroarch_is_told_which_pad_is_which_player() {
    let found = vec![pad("js0", "0001:0001:Pad One", 0), pad("js1", "0002:0002:Pad Two", 1)];
    let (pads, writes) = assign_players(found.clone(), &vec![None, None]);
    assert_eq!(pads[0].player, Some(1));
    assert_eq!(pads[1].player, Some(2));
    let saved: Vec<Option<String>> = writes.iter().map(|(_, v)| Some(v.clone())).collect();

    let second = pads[1].identity.clone();
    let others: Vec<(String, Option<String>)> = pads
        .iter()
        .zip(saved.iter())
        .filter(|(p, _)| p.identity != second)
        .map(|(p, s)| (p.identity.clone(), s.clone()))
        .collect();
    let swap = assign_pad(&second, Some(1), &saved[1], &others).unwrap();
    let mut settings = saved.clone();
    for (key, value) in swap {
        let at = pads.iter().position(|p| pad_key(&p.identity) == key).unwrap();
        settings[at] = value;
    }

    let (pads, _) = assign_players(found, &settings);
    let config = den::config::config_text("/lib/saves", "/lib/savestates", None, None, &player_bindings(&pads));
    assert!(
        config.contains("input_player1_joypad_index = \"1\""),
        "player one should be joystick 1:\n{config}"
    );
    assert!(
        config.contains("input_player2_joypad_index = \"0\""),
        "player two should be joystick 0:\n{config}"
    );
    assert!(config.contains("input_player1_up = \"up\""));
    assert!(config.contains("input_exit_emulator = \"escape\""));
}

#[test]
fn a_percent_or_underscore_in_a_search_is_looked_for_as_written() {
    let q = list_games_query("100% Orange_Juice", None);
    assert_eq!(q.args, vec!["%100\\% Orange\\_Juice%".to_string()]);
    let q = list_games_query("a\\b", None);
    assert_eq!(q.args, vec!["%a\\\\b%".to_string()]);
}

#[test]
fn the_same_game_is_never_started_twice_over_its_own_save() {
    let playing = vec![3, 7];
    match den::den::second_copy(7, "Metroid", &playing) {
        Err(Error::Unusable(message)) => {
            assert!(message.contains("already running"), "the refusal has to say why: {message}");
            assert!(message.starts_with("Metroid"));
        }
        other => panic!("a second copy was allowed: {other:?}"),
    }
    // With the first copy gone, the game starts again.
    assert!(den::den::second_copy(7, "Metroid", &vec![3]).is_ok());
    assert!(den::den::second_copy(7, "Metroid", &Vec::new()).is_ok());
}

#[test]
fn a_launch_with_no_emulator_says_where_it_looked_and_records_nothing() {
    let runner = den::runner::Runner::new("/tmp/t/den", "/tmp/t/den/_config");
    let missing = "/tmp/t/no-retroarch-here".to_string();
    let env = Some((missing.clone(), den::runner::Check { runnable: None, why: den::locate::why_not(false, false, false) }));
    let located = runner.locate(
        &den::runner::Check { runnable: None, why: "cannot be run" },
        &env,
        &Vec::new(),
        &vec![Some("/usr/bin/retroarch".to_string())],
    );
    let searched = runner.searched(Some(missing.clone()), &vec!["/b".to_string()], &vec!["/usr/bin/retroarch".to_string()]);
    let status = retroarch_status(searched, false, runner.managed_dir().to_string(), &located);
    assert!(!status.available);
    assert!(status.path.is_none());
    let problem = status.problem.clone().expect("a reason to show");
    assert!(problem.contains("no-retroarch-here"), "the reason should name the setting that is wrong: {problem}");
    assert!(!status.searched.is_empty(), "the interface has nowhere to point without this");
    let err = Error::Runner(located.unwrap_err()).message();
    assert!(err.contains("RETROARCH"), "unhelpful message: {err}");
}

#[test]
fn intake_shelves_into_the_library_and_the_database() {
    let path = "/staging/drop/Zelda (USA).nes";
    let id = den::identify::identify(path, den::magic::kinds(b"NES\x1a\x02\x01\x01\x00rom"));
    assert_eq!(id.kind, den::identify::FileKind::Rom);
    let title = den::util::clean_title(&den::util::stem_of(path));
    let dat = den::dat::Index::new();
    let (title, system, _probable) = den::shelve::hashed_identity(&dat, "", id.system.unwrap(), title);
    assert_eq!(title, "Zelda");
    assert_eq!(system.name(), "NES");
}

#[test]
fn a_launch_is_recorded_and_closed_when_the_emulator_exits() {
    let mut zelda = game("NES", None);
    zelda.path = "/lib/NES/Zelda/Zelda (USA).nes".into();
    let core = launch_core(&zelda).unwrap();
    assert_eq!(core, "mesen");
    let runner = den::runner::Runner::new("/lib", "/lib/_config");
    let args = runner.launch_args(&zelda, &core, None, false, den::locate::Platform::Linux).unwrap();
    let core_arg = args.iter().position(|a| a == "-L").map(|i| args[i + 1].clone()).expect("a core was passed");
    assert!(core_arg.contains("mesen_libretro."), "the core has to be a file name: {core_arg}");
    assert!(args.contains(&"--fullscreen".to_string()));
    assert!(args.iter().any(|a| a.ends_with("Zelda (USA).nes")));
}
