use den::bios::BiosIndex;
use den::shelve::disc_title;
use den::unpack::{is_disc_ext, is_rider_ext, is_save_ext};
use den::util::{clean_title, ext_of, safe_join, sanitize, stem_of, MAX_NAME};
use den::system::System;
use den::identify::{FileKind, Identification};
use den::shelve::{
    assemble_report, extra_note, file_route, group_route, hashed_entry, leaf_route, leaf_routes, multi_disc_entries,
    unplaced_entry, with_its_disc, FileRoute, GroupRoute, LeafRoute,
};

#[test]
fn sanitize_strips_illegal_chars() {
    assert_eq!(sanitize("a/b\\c:d*e?f\"g<h>i|j"), "a b c d e f g h i j");
}

#[test]
fn clean_title_strips_region_tags() {
    assert_eq!(clean_title("Sonic_the_Hedgehog_(USA,_Europe)"), "Sonic the Hedgehog");
    assert_eq!(clean_title("Final Fantasy VII (USA) (Disc 1)"), "Final Fantasy VII");
    assert_eq!(clean_title("Zelda"), "Zelda");
}

#[test]
fn sanitize_truncates_on_a_character_boundary() {
    let raw = format!("{}\u{00e9}{}", "a".repeat(119), "b".repeat(40));
    let out = sanitize(&raw);
    assert!(out.len() <= MAX_NAME);
    assert_eq!(out, "a".repeat(119));

    let wide = "\u{65e5}".repeat(200);
    assert!(sanitize(&wide).len() <= MAX_NAME);
}

#[test]
fn sanitize_of_only_illegal_characters_is_named() {
    assert_eq!(sanitize("///"), "unnamed");
    assert_eq!(sanitize("   "), "unnamed");
}

#[test]
fn safe_join_blocks_traversal() {
    assert_eq!(safe_join("/d", "../evil"), None);
    assert_eq!(safe_join("/d", "a/b/../c.txt"), None);
    assert_eq!(safe_join("/d", "a/./c.txt"), Some("/d/a/c.txt".to_string()));
}

#[test]
fn ext_classifiers() {
    assert!(is_disc_ext("bin"));
    assert!(!is_disc_ext("nes"));
    assert!(is_rider_ext("txt"));
    assert!(is_save_ext("srm"));
    assert_eq!(ext_of("a.BIN"), "bin");
}

#[test]
fn disc_title_strips_marker() {
    assert_eq!(disc_title("/x/Final Fantasy VII (Disc 1).bin"), "Final Fantasy VII");
}

#[test]
fn known_name_matches() {
    let index = BiosIndex::bundled();
    assert_eq!(index.matches_name("/x/scph1001.bin"), Some("PlayStation SCPH-1001 BIOS"));
    assert_eq!(index.matches_name("/x/random.bin"), None);
}

#[test]
fn hash_tsv_loads() {
    let index = BiosIndex::from_tsv("0123456789abcdef0123456789abcdef01234567\tCustom BIOS\n");
    assert_eq!(index.by_hash("0123456789ABCDEF0123456789ABCDEF01234567"), Some("Custom BIOS"));
}

#[test]
fn whitespace_runs_become_one_space_and_the_ends_are_trimmed() {
    assert_eq!(sanitize("  Super\t\tMario   World  "), "Super Mario World");
}

#[test]
fn a_stem_and_an_extension_are_read_from_the_file_name() {
    assert_eq!(stem_of("/games/Sonic.md"), "Sonic");
    assert_eq!(ext_of("/games/.hidden"), "");
    assert_eq!(ext_of("/games/archive.tar.GZ"), "gz");
}

#[test]
fn an_entry_with_a_backslash_is_joined_as_a_path() {
    assert_eq!(safe_join("/d", "a\\b.txt"), Some("/d/a/b.txt".to_string()));
    assert_eq!(safe_join("/d", "..\\evil"), None);
}

#[test]
fn zip_traversal_is_refused() {
    let out = "/tmp/drop/out";
    assert_eq!(safe_join(out, "../evil.txt"), None);
    // The one entry was passed over: nothing came out, and nothing failed.
    let progress = den::unpack::ZipProgress::new();
    assert!(progress.outcome().is_ok());
}

#[test]
fn a_disc_without_a_cue_gets_one_and_a_set_gets_a_playlist() {
    let leaves = vec![
        "/drop/Twisted Metal (USA).bin".to_string(),
        "/drop/Final Fantasy VII (USA) (Disc 1).bin".to_string(),
        "/drop/Final Fantasy VII (USA) (Disc 2).bin".to_string(),
    ];
    let plan = den::shelve::plan_leaves(&leaves, &BiosIndex::bundled());
    assert!(plan.others.is_empty());
    assert_eq!(plan.groups.len(), 2);
    let set = plan.groups.iter().find(|g| g.1.len() == 2).expect("the set is one group");
    let lone = plan.groups.iter().find(|g| g.1.len() == 1).expect("the lone disc is a group of its own");
    assert_eq!(lone.1, vec!["/drop/Twisted Metal (USA).bin".to_string()]);

    // The lone bin gets a cue of its own, and is reported as repaired.
    assert!(den::shelve::needs_cue("bin", false, System::Ps1));
    assert_eq!(den::shelve::cue_file_name("Twisted Metal (USA).bin"), "Twisted Metal (USA).cue");
    let single = den::shelve::shelved_outcome(Some("generated cue".to_string()), false, "Twisted Metal".to_string());
    assert_eq!(single.word(), "repaired");

    // The set gets a playlist, and its first disc says so.
    let title = disc_title(&set.1[0]);
    assert_eq!(title, "Final Fantasy VII");
    let m3u = den::shelve::playlist_text(&[
        "Final Fantasy VII (USA) (Disc 1).cue".to_string(),
        "Final Fantasy VII (USA) (Disc 2).cue".to_string(),
    ]);
    assert_eq!(
        m3u.lines().collect::<Vec<_>>(),
        vec!["Final Fantasy VII (USA) (Disc 1).cue", "Final Fantasy VII (USA) (Disc 2).cue"]
    );
    let entries = den::shelve::multi_disc_entries(&set.1, &title, &[None, None], true);
    match &entries[0].outcome {
        den::intake::Outcome::Repaired { note, .. } => {
            assert!(note.contains("built multi-disc playlist"), "{note}");
        }
        other => panic!("expected a repair on the first disc, got {}", other.word()),
    }
    assert_eq!(entries[1].outcome.word(), "added");
}

#[test]
fn a_playlist_lists_the_cue_sheets_in_order() {
    let entries = vec![
        "/lib/PlayStation/FF7/Final Fantasy VII (USA) (Disc 2).cue".to_string(),
        "/lib/PlayStation/FF7/Final Fantasy VII (USA) (Disc 2).bin".to_string(),
        "/lib/PlayStation/FF7/Final Fantasy VII (USA) (Disc 1).CUE".to_string(),
        "/lib/PlayStation/FF7/Final Fantasy VII (USA) (Disc 1).bin".to_string(),
    ];
    assert_eq!(
        den::shelve::playlist_cues(&entries),
        vec![
            "Final Fantasy VII (USA) (Disc 1).CUE".to_string(),
            "Final Fantasy VII (USA) (Disc 2).cue".to_string(),
        ]
    );
    assert_eq!(
        den::order::sorted_texts(&vec!["b".to_string(), "B".to_string(), "a".to_string(), "ab".to_string()]),
        vec!["B".to_string(), "a".to_string(), "ab".to_string(), "b".to_string()]
    );
}

#[test]
fn the_intake_stages_answer_as_they_stand() {
    let p = den::processor::IntakeProcessor::new().unwrap();
    assert_eq!(p.stage_drop("/drop").unwrap(), "/drop");
    assert!(p.unpack_archives("/drop").unwrap().is_empty());
    assert!(p.identify_games(&["/drop/a.nes".to_string()]).unwrap().is_empty());
    assert!(p.repair_files(&[]).is_ok());
    assert!(p.shelve_games(&[]).is_ok());
    assert_eq!(p.generate_report(&[], vec!["added"]), "Report generated.");
}

#[test]
fn a_file_seen_twice_in_one_run_is_a_duplicate_the_second_time() {
    let mut memory = den::shelve::ShelfMemory::new();
    assert!(!memory.is_duplicate("abc123", false));
    memory.note_hash("abc123".to_string());
    assert!(memory.is_duplicate("abc123", false));
    assert!(memory.has_seen("abc123"));
    memory.note_hash("def456".to_string());
    assert!(memory.has_seen("abc123"));
    assert!(memory.is_duplicate("zzz", true));
    memory.note_hash(String::new());
    assert!(!memory.is_duplicate("", true));
}

fn drop_leaves() -> Vec<String> {
    [
        "Super Mario Bros (USA).nes",
        "readme.txt",
        "Twisted Metal (USA).bin",
        "scph1001.bin",
        "Final Fantasy VII (USA) (Disc 1).bin",
        "Final Fantasy VII (USA) (Disc 2).bin",
        "Super Mario Bros (USA).srm",
        "Sonic the Hedgehog (USA, Europe).md",
    ]
    .iter()
    .map(|f| format!("/staging/drop/{f}"))
    .collect()
}

/// The head of a drop file, as sniffing would read it.
fn head(leaf: &str) -> Vec<u8> {
    if leaf.ends_with(".nes") {
        b"NES\x1a\x02\x01\x01\x00rom bytes".to_vec()
    } else {
        vec![7u8; 64]
    }
}

#[test]
fn every_input_file_gets_exactly_one_word() {
    let mut leaves = drop_leaves();
    // A cue sheet that went with the lone disc comes in too.
    leaves.push("/staging/drop/Twisted Metal (USA).cue".to_string());
    let bios = BiosIndex::bundled();
    let plan = den::shelve::plan_leaves(&leaves, &bios);
    let mut set_outcomes = Vec::new();
    let mut consumed = Vec::new();
    for (_, files) in &plan.groups {
        let lines = match group_route(files) {
            GroupRoute::Several => {
                let title = disc_title(&files[0]);
                multi_disc_entries(files, &title, &vec![None; files.len()], false)
            }
            GroupRoute::Single => vec![hashed_entry(files[0].clone(), disc_title(&files[0]), false, Ok(None), true)],
        };
        set_outcomes.push(lines.into_iter().map(|e| e.outcome).collect::<Vec<_>>());
        for f in files {
            if den::shelve::is_sibling_cue("/staging/drop/Twisted Metal (USA).cue", f) {
                consumed.push("/staging/drop/Twisted Metal (USA).cue".to_string());
            }
        }
    }
    let routes = leaf_routes(&plan, &consumed);
    let mut leaf_outcomes = Vec::new();
    for (leaf, route) in plan.others.iter().chain(plan.riders.iter()).zip(routes) {
        let entry = match route {
            LeafRoute::WithItsDisc => with_its_disc(leaf.clone()),
            LeafRoute::OrphanCue => panic!("the cue sheet went with its disc"),
            LeafRoute::File => {
                let id = den::identify::identify(leaf, den::magic::kinds(&head(leaf)));
                match file_route(&id) {
                    FileRoute::Hashed { .. } | FileRoute::Disc => {
                        hashed_entry(leaf.clone(), clean_title(&stem_of(leaf)), false, Ok(None), id.probable)
                    }
                    FileRoute::Bios => den::intake::ReportEntry {
                        input: leaf.clone(),
                        outcome: den::intake::Outcome::Bios { name: "a BIOS".to_string() },
                    },
                    FileRoute::Extra { rider } => den::intake::ReportEntry {
                        input: leaf.clone(),
                        outcome: den::intake::Outcome::Extra { note: extra_note(rider).to_string() },
                    },
                    FileRoute::Quarantine => unplaced_entry(leaf.clone(), true),
                    FileRoute::Unsupported => unplaced_entry(leaf.clone(), false),
                }
            }
        };
        leaf_outcomes.push(entry.outcome);
    }
    let entries = assemble_report(&plan, set_outcomes, leaf_outcomes);
    let inputs: Vec<&str> = entries.iter().map(|e| e.input.as_str()).collect();
    assert_eq!(inputs.len(), 9, "{inputs:#?}");
    for leaf in &leaves {
        assert_eq!(inputs.iter().filter(|i| **i == leaf.as_str()).count(), 1, "{leaf} should appear exactly once");
    }
    let word = |file: &str| entries.iter().find(|e| e.input.ends_with(file)).map(|e| e.outcome.word()).unwrap();
    assert_eq!(word("scph1001.bin"), "bios");
    assert_eq!(word("Twisted Metal (USA).cue"), "extra");
    assert_eq!(word("Super Mario Bros (USA).srm"), "extra");
    assert_eq!(word("Super Mario Bros (USA).nes"), "added");
    let report = den::intake::Report { started: 1, finished: 2, entries };
    let counted: usize = report.tally().iter().map(|(_, n)| *n).sum();
    assert_eq!(counted, 9);
}

#[test]
fn disc_sets_come_in_order_whatever_order_the_discs_came_in() {
    let leaves: Vec<String> = ["B (Disc 2).bin", "A (Disc 2).bin", "B (Disc 1).bin", "A (Disc 1).bin"]
        .iter()
        .map(|f| format!("/d/{f}"))
        .collect();
    let plan = den::shelve::plan_leaves(&leaves, &BiosIndex::bundled());
    let groups: Vec<Vec<String>> = plan.groups.iter().map(|(_, files)| files.clone()).collect();
    assert_eq!(
        groups,
        vec![
            vec!["/d/A (Disc 1).bin".to_string(), "/d/A (Disc 2).bin".to_string()],
            vec!["/d/B (Disc 1).bin".to_string(), "/d/B (Disc 2).bin".to_string()],
        ]
    );
    assert_eq!(group_route(&groups[0]), GroupRoute::Several);
    assert_eq!(group_route(&vec!["/d/C.bin".to_string()]), GroupRoute::Single);
}

#[test]
fn the_report_has_a_line_for_each_file_with_its_outcome() {
    let leaves: Vec<String> =
        ["G (Disc 1).bin", "G (Disc 2).bin", "notes.txt", "save.srm"].iter().map(|f| format!("/d/{f}")).collect();
    let plan = den::shelve::plan_leaves(&leaves, &BiosIndex::bundled());
    let sets: Vec<Vec<den::intake::Outcome>> = plan
        .groups
        .iter()
        .map(|(_, files)| files.iter().map(|_| den::intake::Outcome::Added { game: "G".into() }).collect())
        .collect();
    let loose = plan.others.len() + plan.riders.len();
    let rest: Vec<den::intake::Outcome> =
        (0..loose).map(|_| den::intake::Outcome::Extra { note: "rider file".into() }).collect();
    let entries = assemble_report(&plan, sets, rest);
    let inputs: Vec<&str> = entries.iter().map(|e| e.input.as_str()).collect();
    assert_eq!(inputs[0], "/d/G (Disc 1).bin");
    assert_eq!(inputs[1], "/d/G (Disc 2).bin");
    assert_eq!(entries[0].outcome.word(), "added");
    assert_eq!(entries.len(), 4);
    assert_eq!(entries[3].outcome.word(), "extra");
    let routes = leaf_routes(&plan, &vec![]);
    assert_eq!(routes.len(), loose);
}

#[test]
fn a_bios_is_filed_as_a_bios_and_not_as_a_playstation_game() {
    let leaves = drop_leaves();
    let plan = den::shelve::plan_leaves(&leaves, &BiosIndex::bundled());
    let bios = "/staging/drop/scph1001.bin".to_string();
    assert!(plan.others.contains(&bios));
    assert!(!plan.groups.iter().any(|(_, files)| files.contains(&bios)));
    let id = den::identify::identify(&bios, den::magic::kinds(&[9u8; 2048]));
    assert_eq!(id.kind, den::identify::FileKind::Bios);
    let index = BiosIndex::bundled();
    let name = den::shelve::bios_label(index.by_hash("nothing"), index.matches_name(&bios), stem_of(&bios));
    assert!(!name.contains("scph"), "{name}");
}

#[test]
fn a_markdown_extension_that_is_also_a_cartridge_is_shelved_as_a_game() {
    let leaves = drop_leaves();
    let plan = den::shelve::plan_leaves(&leaves, &BiosIndex::bundled());
    let sonic = "/staging/drop/Sonic the Hedgehog (USA, Europe).md".to_string();
    assert!(plan.others.contains(&sonic), "a cartridge is not a rider");
    let id = den::identify::identify(&sonic, den::magic::kinds(&[5u8; 512]));
    assert_eq!(id.kind, den::identify::FileKind::Rom);
    assert_eq!(id.system, Some(System::Genesis));
    let title = clean_title(&stem_of(&sonic));
    let outcome = den::shelve::shelved_outcome(None, true, title);
    assert_eq!(outcome.word(), "probable");
}

#[test]
fn running_the_same_drop_twice_adds_nothing_new() {
    let memory = den::shelve::ShelfMemory::new();
    // The second run finds the hash already in the library.
    assert!(memory.is_duplicate("0123456789abcdef0123456789abcdef01234567", true));
    assert!(!memory.is_duplicate("0123456789abcdef0123456789abcdef01234567", false));
}

#[test]
fn an_imported_save_is_attached_to_its_game() {
    let mut memory = den::shelve::ShelfMemory::new();
    memory.remember("Super Mario Bros", "/lib/NES/Super Mario Bros", Some(4));
    let save = "/staging/drop/Super Mario Bros (USA).srm";
    assert!(is_save_ext(&ext_of(save)));
    assert_eq!(den::shelve::save_kind(&ext_of(save)), "battery");
    let key = clean_title(&stem_of(save)).to_ascii_lowercase();
    assert_eq!(memory.owner(&key), Some(("/lib/NES/Super Mario Bros".to_string(), Some(4))));
}

#[test]
fn a_hashed_file_is_reported_by_what_happened_to_it() {
    let dup = hashed_entry("/d/a.nes".into(), "A".into(), true, Err("ignored".into()), false);
    assert_eq!(dup.outcome.word(), "duplicate");
    let failed = hashed_entry("/d/a.nes".into(), "A".into(), false, Err("disk full".into()), false);
    match failed.outcome {
        den::intake::Outcome::Quarantined { reason } => assert_eq!(reason, "disk full"),
        other => panic!("expected a quarantine, got {}", other.word()),
    }
    let fixed = hashed_entry("/d/a.bin".into(), "A".into(), false, Ok(Some("generated missing cue sheet".into())), true);
    assert_eq!(fixed.outcome.word(), "repaired");
    assert_eq!(hashed_entry("/d/a.md".into(), "A".into(), false, Ok(None), true).outcome.word(), "probable");
    assert_eq!(hashed_entry("/d/a.nes".into(), "A".into(), false, Ok(None), false).outcome.word(), "added");
}

#[test]
fn what_a_file_is_decides_where_it_goes() {
    let id = |kind, system| Identification { kind, system, probable: true };
    assert_eq!(file_route(&id(FileKind::Rom, Some(System::Snes))), FileRoute::Hashed { fallback: System::Snes });
    assert_eq!(file_route(&id(FileKind::Executable, None)), FileRoute::Hashed { fallback: System::Nes });
    assert_eq!(file_route(&id(FileKind::Save, None)), FileRoute::Extra { rider: false });
    assert_eq!(file_route(&id(FileKind::Alien, None)), FileRoute::Unsupported);
    assert_eq!(unplaced_entry("/d/x.zip".into(), true).outcome.word(), "quarantined");
    assert_eq!(leaf_route("/d/Game.CUE", true), LeafRoute::WithItsDisc);
    assert_eq!(leaf_route("/d/Game.cue", false), LeafRoute::OrphanCue);
    assert_eq!(leaf_route("/d/Game.bin", true), LeafRoute::File);
}
