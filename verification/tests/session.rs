use den::config::{config_text, PlayerBinding};
use den::shelve::{cue_file_name, cue_sheet};
use den::system::System;

#[test]
fn write_cue_creates_file() {
    assert_eq!(cue_file_name("Game.bin"), "Game.cue");
    let cue = cue_sheet("Game.bin", System::Ps1);
    assert!(cue.contains("Game.bin"));
}

#[test]
fn config_includes_save_dirs() {
    let text = config_text("/lib/saves", "/lib/savestates", None, None, &[]);
    assert!(text.contains("/lib/saves"));
    assert!(text.contains("savestate_auto_save_interval"));
    assert!(!text.contains("libretro_directory"));
}

#[test]
fn config_names_the_core_directory_when_one_was_found() {
    let text = config_text("/lib/saves", "/lib/savestates", Some("/usr/lib/libretro"), None, &[]);
    assert!(text.contains("libretro_directory = \"/usr/lib/libretro\""));
}

#[test]
fn a_session_keeps_the_settings_the_person_chose() {
    let theirs = "# their config\n\
         video_driver = \"vulkan\"\n\
         input_player1_a = \"x\"\n\
         video_fullscreen = \"false\"\n\
         libretro_directory = \"/somewhere/else\"\n\
         video_shader_enable = \"true\"\n";
    let text = config_text(
        "/lib/saves",
        "/lib/savestates",
        Some("/usr/lib/libretro"),
        Some(theirs),
        &[],
    );
    assert!(text.contains("video_driver = \"vulkan\""));
    assert!(text.contains("input_player1_a = \"x\""));
    assert!(text.contains("video_shader_enable = \"true\""));
    assert_eq!(text.matches("video_fullscreen =").count(), 1);
    assert!(text.contains("video_fullscreen = \"true\""));
    assert_eq!(text.matches("libretro_directory =").count(), 1);
    assert!(text.contains("libretro_directory = \"/usr/lib/libretro\""));
}

#[test]
fn a_session_always_has_keys_to_play_with() {
    let text = config_text("/lib/saves", "/lib/savestates", None, None, &[]);
    assert!(text.contains("input_player1_up = \"up\""));
    assert!(text.contains("input_player1_a = \"x\""));
    assert!(text.contains("input_player1_start = \"enter\""));
    assert!(text.contains("input_exit_emulator = \"escape\""));
    assert!(!text.contains("input_player1_joypad_index"));
}

#[test]
fn a_pad_is_told_to_retroarch_as_the_player_it_answers_for() {
    let text = config_text(
        "/lib/saves",
        "/lib/savestates",
        None,
        None,
        &[
            PlayerBinding { player: 1, joypad_index: Some(2) },
            PlayerBinding { player: 2, joypad_index: Some(0) },
            PlayerBinding { player: 3, joypad_index: None },
        ],
    );
    assert!(text.contains("input_player1_joypad_index = \"2\""), "{text}");
    assert!(text.contains("input_player2_joypad_index = \"0\""), "{text}");
    assert!(!text.contains("input_player3_joypad_index"), "{text}");
    assert!(text.contains("input_max_users = \"4\""));
    assert!(text.contains("input_player1_up = \"up\""));
}

#[test]
fn ours_replace_theirs_rather_than_being_set_twice() {
    let theirs = "input_player1_a = \"k\"\n\
         input_player1_joypad_index = \"7\"\n\
         input_exit_emulator = \"nul\"\n\
         input_max_users = \"1\"\n\
         video_driver = \"gl\"\n";
    let text = config_text(
        "/lib/saves",
        "/lib/savestates",
        None,
        Some(theirs),
        &[PlayerBinding { player: 1, joypad_index: Some(0) }],
    );
    for key in [
        "input_player1_a",
        "input_player1_joypad_index",
        "input_exit_emulator",
        "input_max_users",
    ] {
        assert_eq!(
            text.matches(&format!("{key} =")).count(),
            1,
            "{key} is set twice, and RetroArch would take the wrong one"
        );
    }
    assert!(text.contains("input_player1_a = \"x\""));
    assert!(text.contains("input_player1_joypad_index = \"0\""));
    assert!(text.contains("video_driver = \"gl\""));
}
