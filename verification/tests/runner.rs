use den::config::PlayerBinding;
use den::db::Game;
use den::locate::{
    candidates, config_path, config_value, core_argument, core_file_name, dedup_keeping_order, exec_paths,
    runtime_dirs, why_not, Platform,
};
use den::runner::{bundled_binaries, is_runnable, Check, Runner, RunnerError, Source};

#[test]
fn a_config_value_is_read_the_way_retroarch_writes_it() {
    let text = "# comment\n\
         libretro_directory = \"/home/you/.config/retroarch/cores\"\n\
         video_driver = \"gl\"\n\
         cache_directory = \"default\"\n\
         empty_thing = \"\"\n";
    assert_eq!(
        config_value(text, "libretro_directory").as_deref(),
        Some("/home/you/.config/retroarch/cores")
    );
    assert_eq!(config_value(text, "cache_directory"), None);
    assert_eq!(config_value(text, "empty_thing"), None);
    assert_eq!(config_value(text, "nothing_like_this"), None);
}

#[test]
fn config_paths_expand_the_shorthands_retroarch_uses() {
    let retroarch = "/opt/RetroArch/retroarch";
    assert_eq!(
        config_path(":/cores", retroarch, Some("/home/you")),
        Some("/opt/RetroArch/cores".to_string()),
        "a leading colon is RetroArch's own directory"
    );
    assert_eq!(
        config_path("/usr/lib/libretro", retroarch, Some("/home/you")),
        Some("/usr/lib/libretro".to_string())
    );
    assert_eq!(config_path("~/cores", retroarch, Some("/home/you")), Some("/home/you/cores".to_string()));
}

#[test]
fn exec_lines_yield_retroarch_programs_only() {
    let entry = "[Desktop Entry]\n\
         Name=RetroArch\n\
         Exec=/usr/local/bin/retroarch %f\n\
         Exec=retroarch\n\
         Exec=\"/opt/My Emulators/retroarch\" --fullscreen %U\n\
         Exec=/usr/bin/flatpak run --branch=stable org.libretro.RetroArch\n\
         Exec=/usr/bin/env RETROARCH=1 /usr/bin/retroarch\n";
    assert_eq!(
        exec_paths(entry),
        vec!["/usr/local/bin/retroarch".to_string(), "/opt/My Emulators/retroarch".to_string()],
    );
}

#[test]
fn the_search_list_has_no_repeats() {
    let mut paths = vec!["/a".to_string(), "/b".to_string(), "/a".to_string(), "/c".to_string(), "/b".to_string()];
    dedup_keeping_order(&mut paths);
    assert_eq!(paths, vec!["/a".to_string(), "/b".to_string(), "/c".to_string()]);

    let places = candidates(
        Platform::Linux,
        &vec!["/usr/bin".to_string(), "/usr/local/bin".to_string(), "/usr/bin".to_string()],
        Some("/home/you"),
        &Vec::new(),
        &vec!["/usr/bin/retroarch".to_string()],
    );
    let mut unique = places.clone();
    dedup_keeping_order(&mut unique);
    assert_eq!(places.len(), unique.len(), "the search list repeats itself");
}

#[test]
fn the_search_looks_beyond_path() {
    let places = candidates(Platform::Linux, &Vec::new(), Some("/home/you"), &Vec::new(), &Vec::new());
    assert!(places.len() > 3, "the search should cover more than PATH: {places:?}");
    assert!(places.iter().all(|p| !p.ends_with('/')));
    assert_eq!(places[0], "/usr/bin/retroarch");
}

#[test]
fn a_core_is_named_as_a_file_not_as_a_bare_word() {
    let bare = core_argument("mesen", None, false, Platform::Linux);
    assert_eq!(bare, core_file_name("mesen", Platform::Linux));
    assert!(bare.contains("mesen_libretro."));
    assert_eq!(core_argument("snes9x", Some("/cores"), true, Platform::Linux), "/cores/snes9x_libretro.so");
    assert_eq!(core_argument("mgba", Some("/cores"), false, Platform::Linux), "mgba_libretro.so");
    assert_eq!(core_file_name("mgba", Platform::Windows), "mgba_libretro.dll");
    assert_eq!(core_file_name("mgba", Platform::MacOs), "mgba_libretro.dylib");
}

fn check(runnable: Option<&str>, why: &'static str) -> Check {
    Check { runnable: runnable.map(|s| s.to_string()), why }
}

#[test]
fn a_chosen_path_beats_every_search() {
    let mut runner = Runner::new("/lib", "/lib/_config");
    runner.set_chosen(Some("/somewhere/odd/retroarch".to_string()));
    let found = runner
        .locate(
            &check(Some("/somewhere/odd/retroarch"), "cannot be run"),
            &None,
            &vec![Some("/lib/_runtime/retroarch/retroarch".to_string())],
            &vec![Some("/usr/bin/retroarch".to_string())],
        )
        .expect("the chosen path is used");
    assert_eq!(found.source, Source::Chosen);
    assert_eq!(found.path, "/somewhere/odd/retroarch");
    assert_eq!(
        runner.searched(None, &vec!["/x".to_string()], &vec!["/y".to_string()]),
        vec!["/somewhere/odd/retroarch".to_string()]
    );

    let err = runner
        .locate(&check(None, why_not(false, false, false)), &None, &Vec::new(), &vec![Some("/usr/bin/retroarch".to_string())])
        .unwrap_err();
    assert!(matches!(err, RunnerError::ChosenNotRunnable(..)), "{}", err.message());
    assert!(err.message().contains("is not there any more"));
    assert!(err.message().contains("retroarch"));
}

#[test]
fn an_override_that_points_nowhere_says_so() {
    let runner = Runner::new("/lib", "/lib/_config");
    let env = Some(("/tmp/not-here".to_string(), check(None, why_not(false, false, false))));
    let err = runner
        .locate(&check(None, "cannot be run"), &env, &Vec::new(), &vec![Some("/usr/bin/retroarch".to_string())])
        .unwrap_err();
    assert!(matches!(err, RunnerError::OverrideNotRunnable(..)));
    assert_eq!(err.message(), "RETROARCH is set to `/tmp/not-here`, which is not there any more");
}

#[test]
fn a_bundled_runtime_beats_one_installed_on_the_machine() {
    let runner = Runner::new("/lib", "/lib/_config");
    let found = runner
        .locate(
            &check(None, "cannot be run"),
            &None,
            &vec![None, Some("/res/runtime/retroarch/retroarch".to_string())],
            &vec![Some("/usr/bin/retroarch".to_string())],
        )
        .unwrap();
    assert_eq!(found.source, Source::Bundled);
    assert_eq!(found.path, "/res/runtime/retroarch/retroarch");
    assert_eq!(found.source.word(), "bundled");
}

#[test]
fn nothing_anywhere_is_not_found() {
    let runner = Runner::new("/lib", "/lib/_config");
    let err = runner.locate(&check(None, "cannot be run"), &None, &vec![None], &vec![None, None]).unwrap_err();
    assert!(matches!(err, RunnerError::NotFound));
    assert!(err.message().starts_with("RetroArch was not found."));
    assert!(!runner.available(&check(None, "cannot be run"), &None, &vec![None], &vec![None]));
}

#[test]
fn a_runtime_under_the_library_is_looked_for() {
    let runner = Runner::new("/home/you/den", "/home/you/den/_config");
    assert_eq!(runner.managed_dir(), "/home/you/den/_runtime");
    let dirs = runtime_dirs(Some("/res"), None, None, runner.managed_dir());
    assert_eq!(
        dirs,
        vec![
            "/res/runtime/retroarch".to_string(),
            "/res/runtime".to_string(),
            "/res/resources/runtime/retroarch".to_string(),
            "/res/resources/runtime".to_string(),
            "/res/retroarch".to_string(),
            "/res".to_string(),
            "/home/you/den/_runtime/retroarch".to_string(),
            "/home/you/den/_runtime".to_string(),
        ]
    );
    let bins = bundled_binaries(&vec!["/res".to_string()], Platform::Linux);
    assert_eq!(bins, vec!["/res/retroarch".to_string(), "/res/org.libretro.RetroArch".to_string()]);
}

#[test]
fn a_missing_core_is_named_before_retroarch_dies_of_it() {
    let runner = Runner::new("/lib", "/lib/_config");
    let game = Game {
        id: 1,
        title: "Mario Kart 64".into(),
        system: "N64".into(),
        path: "/lib/mk64.z64".into(),
        hash: None,
        size: None,
        status: "added".into(),
        core: None,
        art: None,
        created_at: 0,
        updated_at: 0,
        playtime: 0,
        last_played: None,
    };
    let err = runner
        .launch_args(&game, "mupen64plus_next", Some("/cores"), false, Platform::Linux)
        .unwrap_err();
    assert!(matches!(err, RunnerError::CoreMissing { .. }));
    let message = err.message();
    assert!(message.contains("mupen64plus_next"), "{message}");
    assert!(message.contains("Core Downloader"), "{message}");

    let args = runner.launch_args(&game, "snes9x", Some("/cores"), true, Platform::Linux).unwrap();
    assert_eq!(
        args,
        vec![
            "-L".to_string(),
            "/cores/snes9x_libretro.so".to_string(),
            "--config".to_string(),
            "/lib/_config/den-1.cfg".to_string(),
            "--fullscreen".to_string(),
            "/lib/mk64.z64".to_string(),
        ]
    );
    assert_eq!(runner.core_installed(true, Some("/cores"), true), Some(true));
    assert_eq!(runner.core_installed(true, None, true), None);
    assert!(is_runnable(true, true));
    assert!(!is_runnable(true, false));
    let _ = PlayerBinding { player: 1, joypad_index: Some(0) };
}

#[test]
fn why_a_path_is_not_runnable_is_said_in_words() {
    assert_eq!(why_not(false, false, false), "is not there any more");
    assert_eq!(why_not(true, true, false), "is a directory, not a program");
    assert_eq!(why_not(true, false, false), "is not marked executable");
    assert_eq!(why_not(true, false, true), "cannot be run");
}

#[test]
fn a_directory_named_retroarch_is_not_a_retroarch() {
    assert_eq!(den::locate::runnable("/tmp/x/retroarch", false, true, Some("/")), None);
}

#[test]
fn a_file_without_the_executable_bit_is_not_a_retroarch() {
    assert_eq!(den::locate::runnable("/tmp/x/retroarch", true, false, Some("/")), None);
}

#[test]
fn the_cores_directory_must_actually_hold_cores() {
    let runner = Runner::new("/tmp/t", "/tmp/t/_config");
    let places = den::locate::core_dir_candidates("/tmp/t/bin/retroarch", None, &Vec::new());
    assert_eq!(places[0], "/tmp/t/bin/cores");
    let empty = vec![false; places.len()];
    assert_ne!(runner.cores_for(&places, &empty), Some("/tmp/t/bin/cores".to_string()));
    let no_core = vec!["readme.txt".to_string()];
    assert!(!den::locate::holds_a_core(&no_core, Platform::Linux));
    let one_core = vec![core_file_name("mesen", Platform::Linux)];
    assert!(den::locate::holds_a_core(&one_core, Platform::Linux));
    let mut held = vec![false; places.len()];
    held[0] = true;
    assert_eq!(runner.cores_for(&places, &held), Some("/tmp/t/bin/cores".to_string()));
}

#[test]
fn cores_beside_the_binary_are_found_when_a_bundle_flattened_them() {
    let runner = Runner::new("/tmp/t", "/tmp/t/_config");
    let places = den::locate::core_dir_candidates("/tmp/t/runtime/retroarch", None, &Vec::new());
    assert_eq!(places.last().map(|s| s.as_str()), Some("/tmp/t/runtime"));
    let mut held = vec![false; places.len()];
    let last = places.len() - 1;
    held[last] = true;
    assert_eq!(runner.cores_for(&places, &held), Some("/tmp/t/runtime".to_string()));
}

#[test]
fn a_bundled_runtime_is_found_under_either_layout() {
    let runner = Runner::new("/tmp/t", "/tmp/t/_config");
    for layout in ["runtime", "resources/runtime"] {
        let dirs = runtime_dirs(Some("/tmp/t/Resources"), None, None, runner.managed_dir());
        let want = format!("/tmp/t/Resources/{layout}/retroarch");
        assert!(dirs.contains(&want), "layout {layout}: {dirs:?}");
        let bins = bundled_binaries(&dirs, Platform::Linux);
        let planted = format!("{want}/retroarch");
        let found_at: Vec<Option<String>> =
            bins.iter().map(|b| if *b == planted { Some(b.clone()) } else { None }).collect();
        let found = runner
            .locate(&check(None, "cannot be run"), &None, &found_at, &Vec::new())
            .unwrap_or_else(|e| panic!("layout {layout}: {}", e.message()));
        assert_eq!(found.source, Source::Bundled);
        assert_eq!(found.path, planted);
    }
}

#[test]
fn a_runtime_under_the_library_is_found_without_anything_installed() {
    let runner = Runner::new("/tmp/t/den", "/tmp/t/den/_config");
    assert_eq!(runner.managed_dir(), "/tmp/t/den/_runtime");
    let dirs = runtime_dirs(None, None, None, runner.managed_dir());
    let bins = bundled_binaries(&dirs, Platform::Linux);
    let planted = "/tmp/t/den/_runtime/retroarch/retroarch".to_string();
    assert!(bins.contains(&planted));
    let found_at: Vec<Option<String>> =
        bins.iter().map(|b| if *b == planted { Some(b.clone()) } else { None }).collect();
    let found = runner
        .locate(&check(None, "cannot be run"), &None, &found_at, &Vec::new())
        .expect("the managed copy is found");
    assert_eq!(found.source, Source::Bundled);
    assert_eq!(found.path, planted);
}

#[test]
fn binary_lookup() {
    let runner = Runner::new("/tmp/den-test", "/tmp/den-test/_config");
    let resolved = den::locate::runnable("bin/retroarch", true, true, Some("/tmp/dir"));
    assert_eq!(resolved.as_deref(), Some("/tmp/dir/bin/retroarch"));
    let env = Some(("bin/retroarch".to_string(), check(resolved.as_deref(), "cannot be run")));
    let found = runner
        .locate(&check(None, "cannot be run"), &env, &Vec::new(), &Vec::new())
        .expect("an explicit override is found");
    assert_eq!(found.source, Source::Environment);
    assert!(found.path.starts_with('/'), "{:?} should have been resolved", found.path);

    let env = Some(("/tmp/dir/not-here".to_string(), check(None, why_not(false, false, false))));
    let err = runner
        .locate(&check(None, "cannot be run"), &env, &Vec::new(), &vec![Some("/usr/bin/retroarch".to_string())])
        .unwrap_err();
    assert!(
        matches!(err, RunnerError::OverrideNotRunnable(..)),
        "expected the override to be named, got {}",
        err.message()
    );
    assert!(err.message().contains("not-here"));
}
