//! Shelving decisions: where a file goes, under what title, and what word
//! the report gives it. The copying itself is done by the caller.

use vstd::prelude::*;
use vstd::multiset::Multiset;
use crate::bios::BiosIndex;
use crate::dat::{find, system_named, Index};
use crate::identify::{disc_system, is_disc_system, FileKind, Identification};
use crate::intake::{Outcome, OutcomeView, ReportEntry};
use crate::order::{in_text_order, ins, key_lt, lemma_in_text_order_bag, sort_positions, sorted_positions, sorted_texts,
    text_views, KeyView, SortKey};
use crate::path::{file_name, join, name_stem, name_stem_of, push, std_file_name};
use crate::system::{all_systems, first_with_extension, name_of, System};
use crate::text::{chars_of, decimal, dec, find_chars, first_occurrence, is_literal, lemma_first_occurrence_bound,
    lower_chars, lower_seq, push_chars, push_str, slice_chars, starts_with_chars, string_from_chars, trim};
use crate::unpack::{is_rider_ext, is_save_ext, is_save_ext_spec, rider_exts};
use crate::util::{clean_title, clean_title_spec, ext_of, ext_spec, sanitize, sanitize_spec, stem_of, stem_spec};

verus! {

broadcast use vstd::string::group_string_axioms;

/// The title of one disc of a set: the stem up to a `(Disc `, `(Disk ` or
/// `(CD ` marker, cleaned.
pub open spec fn disc_title_spec(path: Seq<char>) -> Seq<char> {
    let stem = stem_spec(path);
    let l = lower_seq(stem);
    let a = first_occurrence(l, "(disc "@);
    let b = first_occurrence(l, "(disk "@);
    let c = first_occurrence(l, "(cd "@);
    if a >= 0 {
        clean_title_spec(stem.take(a))
    } else if b >= 0 {
        clean_title_spec(stem.take(b))
    } else if c >= 0 {
        clean_title_spec(stem.take(c))
    } else {
        clean_title_spec(stem)
    }
}

pub fn disc_title(path: &str) -> (r: String)
    ensures
        r@ == disc_title_spec(path@),
{
    let stem = chars_of(stem_of(path).as_str());
    let lower = lower_chars(&stem);
    let markers: [&str; 3] = ["(disc ", "(disk ", "(cd "];
    let mut k: usize = 0;
    while k < 3
        invariant
            k <= 3,
            markers@ == seq!["(disc ", "(disk ", "(cd "],
            stem@ == stem_spec(path@),
            lower@ == lower_seq(stem@),
            stem@.len() == lower@.len(),
            k > 0 ==> first_occurrence(lower@, "(disc "@) < 0,
            k > 1 ==> first_occurrence(lower@, "(disk "@) < 0,
            k > 2 ==> first_occurrence(lower@, "(cd "@) < 0,
        decreases 3 - k,
    {
        let m = chars_of(markers[k]);
        proof {
            lemma_first_occurrence_bound(lower@, m@);
        }
        if let Some(idx) = find_chars(&lower, &m) {
            let head = slice_chars(&stem, 0, idx);
            assert(head@ =~= stem@.take(idx as int));
            return clean_title(string_from_chars(&head).as_str());
        }
        k += 1;
    }
    clean_title(string_from_chars(&stem).as_str())
}

/// The key discs of one set share: the disc title, lower-cased.
pub fn disc_key(path: &str) -> (r: String)
    ensures
        r@ == lower_seq(disc_title_spec(path@)),
{
    let t = disc_title(path);
    string_from_chars(&lower_chars(&chars_of(t.as_str())))
}

/// A path's file name, or `unnamed`.
pub open spec fn file_name_spec(path: Seq<char>) -> Seq<char> {
    match std_file_name(path) {
        None => "unnamed"@,
        Some(n) => n,
    }
}

pub fn file_name_of(path: &str) -> (r: String)
    ensures
        r@ == file_name_spec(path@),
{
    match file_name(path) {
        None => "unnamed".to_string(),
        Some(n) => n,
    }
}

/// Whether an extension is shelved after the games, as a rider: a save or
/// rider extension that no system claims.
pub open spec fn rider_first_spec(ext: Seq<char>) -> bool {
    first_with_extension(all_systems(), lower_seq(ext)) is None && (is_save_ext_spec(ext)
        || rider_exts().contains(ext))
}

pub fn is_rider_first(ext: &str) -> (r: bool)
    ensures
        r == rider_first_spec(ext@),
{
    if System::from_extension(ext).is_some() {
        return false;
    }
    is_save_ext(ext) || is_rider_ext(ext)
}

/// The system a disc image is shelved under: PlayStation for `bin` and
/// `chd`, otherwise the disc system its extension names, PlayStation failing
/// that.
pub open spec fn disc_system_spec(path: Seq<char>) -> System {
    let ext = ext_spec(path);
    if ext == "bin"@ || ext == "chd"@ {
        System::Ps1
    } else {
        match first_with_extension(all_systems(), lower_seq(ext)) {
            Some(s) => if disc_system(s) {
                s
            } else {
                System::Ps1
            },
            None => System::Ps1,
        }
    }
}

pub fn disc_system_for(path: &str) -> (r: System)
    ensures
        r == disc_system_spec(path@),
{
    let ext = ext_of(path);
    let e = chars_of(ext.as_str());
    if is_literal(&e, "bin") || is_literal(&e, "chd") {
        System::Ps1
    } else {
        match System::from_extension(ext.as_str()) {
            Some(s) => if is_disc_system(s) {
                s
            } else {
                System::Ps1
            },
            None => System::Ps1,
        }
    }
}

/// The track mode a generated cue sheet declares.
pub open spec fn cue_mode(system: System) -> Seq<char> {
    if system == System::Ps1 {
        "MODE2/2352"@
    } else {
        "MODE1/2352"@
    }
}

/// A one-track cue sheet for a bin file.
pub open spec fn cue_sheet_spec(bin_name: Seq<char>, system: System) -> Seq<char> {
    "FILE \""@ + bin_name + "\" BINARY\n  TRACK 01 "@ + cue_mode(system) + "\n    INDEX 01 00:00:00\n"@
}

/// A generated cue sheet names its bin as one binary file and declares one
/// track of the bin's whole disc: a PlayStation disc's track is raw
/// `MODE2/2352`, every other system's `MODE1/2352`, starting at the very
/// beginning of the bin.
pub proof fn lemma_cue_sheet_declares_the_track(bin: Seq<char>, system: System)
    ensures
        crate::text::occurs_at(cue_sheet_spec(bin, system), 0, "FILE \""@ + bin + "\" BINARY\n"@),
        system == System::Ps1 ==> crate::text::contains_seq(cue_sheet_spec(bin, system), "TRACK 01 MODE2/2352\n"@),
        system != System::Ps1 ==> crate::text::contains_seq(cue_sheet_spec(bin, system), "TRACK 01 MODE1/2352\n"@),
        crate::text::contains_seq(cue_sheet_spec(bin, system), "INDEX 01 00:00:00\n"@),
{
    reveal_strlit("FILE \"");
    reveal_strlit("\" BINARY\n  TRACK 01 ");
    reveal_strlit("\n    INDEX 01 00:00:00\n");
    reveal_strlit("MODE2/2352");
    reveal_strlit("MODE1/2352");
    reveal_strlit("\" BINARY\n");
    reveal_strlit("TRACK 01 MODE2/2352\n");
    reveal_strlit("TRACK 01 MODE1/2352\n");
    reveal_strlit("INDEX 01 00:00:00\n");
    reveal_strlit("  ");
    reveal_strlit("    ");
    reveal_strlit("TRACK 01 ");
    reveal_strlit("\n");
    let sheet = cue_sheet_spec(bin, system);
    let head = "FILE \""@ + bin + "\" BINARY\n"@;
    let track = "TRACK 01 "@ + cue_mode(system) + "\n"@;
    let idx = "INDEX 01 00:00:00\n"@;
    assert(sheet =~= head + "  "@ + track + "    "@ + idx);
    assert(sheet.subrange(0, head.len() as int) =~= head);
    let t: int = head.len() as int + 2;
    assert(sheet.subrange(t, t + track.len()) =~= track);
    assert(crate::text::occurs_at(sheet, t, track));
    if system == System::Ps1 {
        assert(track =~= "TRACK 01 MODE2/2352\n"@);
    } else {
        assert(track =~= "TRACK 01 MODE1/2352\n"@);
    }
    let x: int = t + track.len() + 4;
    assert(sheet.subrange(x, x + idx.len()) =~= idx);
    assert(crate::text::occurs_at(sheet, x, idx));
}

pub fn cue_sheet(bin_name: &str, system: System) -> (r: String)
    ensures
        r@ == cue_sheet_spec(bin_name@, system),
{
    let mut v: Vec<char> = Vec::new();
    push_str(&mut v, "FILE \"");
    push_str(&mut v, bin_name);
    push_str(&mut v, "\" BINARY\n  TRACK 01 ");
    if system == System::Ps1 {
        push_str(&mut v, "MODE2/2352");
    } else {
        push_str(&mut v, "MODE1/2352");
    }
    push_str(&mut v, "\n    INDEX 01 00:00:00\n");
    string_from_chars(&v)
}

/// The file a generated cue sheet is written to: the bin's stem, or `disc`,
/// with `.cue`.
pub open spec fn cue_file_spec(bin_name: Seq<char>) -> Seq<char> {
    let stem = match std_file_name(bin_name) {
        None => "disc"@,
        Some(n) => name_stem(n),
    };
    stem + ".cue"@
}

pub fn cue_file_name(bin_name: &str) -> (r: String)
    ensures
        r@ == cue_file_spec(bin_name@),
{
    let mut v = match file_name(bin_name) {
        None => chars_of("disc"),
        Some(n) => name_stem_of(&chars_of(n.as_str())),
    };
    push_str(&mut v, ".cue");
    string_from_chars(&v)
}

/// A cue sheet is generated for a `bin` of a disc system that came without
/// one.
pub fn needs_cue(ext: &str, found_cues: bool, system: System) -> (r: bool)
    ensures
        r == (ext@ == "bin"@ && !found_cues && disc_system(system)),
{
    is_literal(&chars_of(ext), "bin") && !found_cues && is_disc_system(system)
}

/// The name the `n`th variant of a game file is kept under: `n+1.name`.
pub fn variant_name(n: u64, file_name: &str) -> (r: String)
    requires
        n < u64::MAX,
    ensures
        r@ == dec((n + 1) as nat) + seq!['.'] + file_name@,
{
    let mut v = decimal(n + 1);
    v.push('.');
    push_str(&mut v, file_name);
    string_from_chars(&v)
}

/// Lines joined with `\n`, each ended by one.
pub open spec fn playlist_spec(names: Seq<Seq<char>>) -> Seq<char>
    decreases names.len(),
{
    if names.len() == 0 {
        Seq::<char>::empty()
    } else {
        playlist_spec(names.drop_last()) + names.last() + seq!['\n']
    }
}

/// The file names of the cue sheets among a folder's entries, in the
/// order the entries came.
pub open spec fn cue_entries(paths: Seq<Seq<char>>) -> Seq<Seq<char>>
    decreases paths.len(),
{
    if paths.len() == 0 {
        Seq::<Seq<char>>::empty()
    } else {
        let r = cue_entries(paths.drop_last());
        if ext_spec(paths.last()) == "cue"@ {
            r.push(file_name_spec(paths.last()))
        } else {
            r
        }
    }
}

/// What a multi-disc set's playlist lists: the file names of the cue
/// sheets in its folder, in the order `str` sorts them.
pub fn playlist_cues(entries: &Vec<String>) -> (r: Vec<String>)
    ensures
        text_views(r@) == in_text_order(cue_entries(text_views(entries@))),
{
    let ghost ev = text_views(entries@);
    let mut cues: Vec<String> = Vec::new();
    let mut i: usize = 0;
    assert(ev.take(0) =~= Seq::<Seq<char>>::empty());
    while i < entries.len()
        invariant
            i <= entries@.len(),
            ev == text_views(entries@),
            text_views(cues@) == cue_entries(ev.take(i as int)),
        decreases entries@.len() - i,
    {
        assert(ev.take(i + 1).drop_last() =~= ev.take(i as int));
        assert(ev.take(i + 1).last() == entries@[i as int]@);
        let e = ext_of(entries[i].as_str());
        if is_literal(&chars_of(e.as_str()), "cue") {
            let ghost before = cues@;
            cues.push(file_name_of(entries[i].as_str()));
            assert(text_views(cues@) =~= text_views(before).push(file_name_spec(entries@[i as int]@)));
        }
        i += 1;
    }
    assert(ev.take(entries@.len() as int) =~= ev);
    sorted_texts(&cues)
}

/// An `.m3u` playlist naming each cue sheet on a line of its own.
pub fn playlist_text(names: &[String]) -> (r: String)
    ensures
        r@ == playlist_spec(names@.map_values(|s: String| s@)),
{
    let ghost nv = names@.map_values(|s: String| s@);
    let mut v: Vec<char> = Vec::new();
    let mut i: usize = 0;
    assert(nv.take(0) =~= Seq::<Seq<char>>::empty());
    while i < names.len()
        invariant
            i <= names@.len(),
            nv == names@.map_values(|s: String| s@),
            v@ == playlist_spec(nv.take(i as int)),
        decreases names@.len() - i,
    {
        assert(nv.take(i + 1).drop_last() =~= nv.take(i as int));
        assert(nv[i as int] == names@[i as int]@);
        push_str(&mut v, names[i].as_str());
        v.push('\n');
        i += 1;
    }
    assert(nv.take(names@.len() as int) =~= nv);
    string_from_chars(&v)
}

/// What kind of save an imported save file is: a state or a battery save.
pub fn save_kind(ext: &str) -> (r: &'static str)
    ensures
        r@ == if "state"@.len() <= ext@.len() && ext@.take("state"@.len() as int) == "state"@ {
            "state"@
        } else {
            "battery"@
        },
{
    if starts_with_chars(&chars_of(ext), &chars_of("state")) {
        "state"
    } else {
        "battery"
    }
}

/// Whether `candidate` is a cue sheet beside `disc` that belongs to it: a
/// `cue` with the same stem, ASCII case aside.
pub fn is_sibling_cue(candidate: &str, disc: &str) -> (r: bool)
    ensures
        r == (ext_spec(candidate@) == "cue"@ && lower_seq(stem_spec(candidate@)) == lower_seq(
            stem_spec(disc@),
        )),
{
    let e = ext_of(candidate);
    if !is_literal(&chars_of(e.as_str()), "cue") {
        return false;
    }
    let a = lower_chars(&chars_of(stem_of(candidate).as_str()));
    let b = lower_chars(&chars_of(stem_of(disc).as_str()));
    crate::text::same_chars(&a, &b)
}

/// Where a game is shelved: `library/<system name>/<sanitized title>`.
pub open spec fn game_dir_spec(library: Seq<char>, system: System, title: Seq<char>) -> Seq<char> {
    push(push(library, name_of(system)), sanitize_spec(title))
}

pub fn game_dir(library: &str, system: System, title: &str) -> (r: String)
    ensures
        r@ == game_dir_spec(library@, system, title@),
{
    let d = join(library, system.name());
    let s = sanitize(title);
    join(d.as_str(), s.as_str())
}

/// Title, system, and whether only a guess, for a file with hash `sha1`:
/// what the DAT says when it knows the hash, the fallbacks when not.
pub open spec fn hashed_identity_spec(
    dat: Seq<crate::dat::EntryView>,
    sha1: Seq<char>,
    fallback_system: System,
    fallback_title: Seq<char>,
) -> (Seq<char>, System, bool) {
    match find(dat, sha1) {
        Some(e) => (
            e.1,
            match system_named(lower_seq(trim(e.2))) {
                Some(s) => s,
                None => fallback_system,
            },
            false,
        ),
        None => (fallback_title, fallback_system, true),
    }
}

pub fn hashed_identity(dat: &Index, sha1: &str, fallback_system: System, fallback_title: String) -> (r: (
    String,
    System,
    bool,
))
    ensures
        (r.0@, r.1, r.2) == hashed_identity_spec(dat@, sha1@, fallback_system, fallback_title@),
{
    match dat.lookup(sha1) {
        Some(e) => {
            let system = match Index::system_of(e) {
                Some(s) => s,
                None => fallback_system,
            };
            (e.title.clone(), system, false)
        },
        None => (fallback_title, fallback_system, true),
    }
}

/// The word a shelved file gets: repaired if something was fixed, probable
/// if the DAT did not know it, added otherwise.
pub fn shelved_outcome(repaired: Option<String>, probable: bool, title: String) -> (r: Outcome)
    ensures
        r@ == match repaired {
            Some(note) => OutcomeView::Repaired(title@, note@),
            None => if probable {
                OutcomeView::Probable(title@)
            } else {
                OutcomeView::Added(title@)
            },
        },
{
    match repaired {
        Some(note) => Outcome::Repaired { game: title, note },
        None => if probable {
            Outcome::Probable { game: title }
        } else {
            Outcome::Added { game: title }
        },
    }
}

/// What shelving does with a file that is not part of a disc set, by what
/// identification made of it.
#[derive(Debug, Clone, Copy, PartialEq, Eq, Structural)]
pub enum FileRoute {
    /// Hashed and shelved as a game of `fallback` unless the index knows it.
    Hashed { fallback: System },
    /// Shelved as a disc of a set of one.
    Disc,
    /// Filed with the BIOS files.
    Bios,
    /// Kept beside its game, or with the library's extras: a rider file or,
    /// when `rider` is false, an imported save.
    Extra { rider: bool },
    /// An archive that could not be unpacked.
    Quarantine,
    /// A format Den does not handle.
    Unsupported,
}

pub open spec fn file_route_spec(id: Identification) -> FileRoute {
    match id.kind {
        FileKind::Rom | FileKind::Executable => FileRoute::Hashed {
            fallback: match id.system {
                Some(s) => s,
                None => System::Nes,
            },
        },
        FileKind::Disc => FileRoute::Disc,
        FileKind::Bios => FileRoute::Bios,
        FileKind::Rider => FileRoute::Extra { rider: true },
        FileKind::Save => FileRoute::Extra { rider: false },
        FileKind::Archive => FileRoute::Quarantine,
        FileKind::Alien => FileRoute::Unsupported,
    }
}

pub fn file_route(id: &Identification) -> (r: FileRoute)
    ensures
        r == file_route_spec(*id),
{
    match id.kind {
        FileKind::Rom | FileKind::Executable => FileRoute::Hashed {
            fallback: match id.system {
                Some(s) => s,
                None => System::Nes,
            },
        },
        FileKind::Disc => FileRoute::Disc,
        FileKind::Bios => FileRoute::Bios,
        FileKind::Rider => FileRoute::Extra { rider: true },
        FileKind::Save => FileRoute::Extra { rider: false },
        FileKind::Archive => FileRoute::Quarantine,
        FileKind::Alien => FileRoute::Unsupported,
    }
}

/// The note an extra is reported with.
pub fn extra_note(rider: bool) -> (r: &'static str)
    ensures
        r@ == if rider {
            "rider file"@
        } else {
            "imported save"@
        },
{
    if rider {
        "rider file"
    } else {
        "imported save"
    }
}

/// The report line of a file that is not shelved at all: an archive that
/// would not unpack is quarantined, anything else is unsupported.
pub fn unplaced_entry(input: String, archive: bool) -> (r: ReportEntry)
    ensures
        r@ == if archive {
            (input@, OutcomeView::Quarantined("archive could not be unpacked"@))
        } else {
            (input@, OutcomeView::Unsupported("unrecognised format"@))
        },
{
    if archive {
        ReportEntry { input, outcome: Outcome::Quarantined { reason: "archive could not be unpacked".to_string() } }
    } else {
        ReportEntry { input, outcome: Outcome::Unsupported { reason: "unrecognised format".to_string() } }
    }
}

/// What becomes of a leaf outside the disc sets: a cue sheet that went with
/// a disc was shelved with it, one that went with none is an orphan, and
/// every other file is shelved by what it is.
#[derive(Debug, Clone, Copy, PartialEq, Eq, Structural)]
pub enum LeafRoute {
    WithItsDisc,
    OrphanCue,
    File,
}

pub open spec fn leaf_route_spec(leaf: Seq<char>, consumed: bool) -> LeafRoute {
    if ext_spec(leaf) == "cue"@ {
        if consumed {
            LeafRoute::WithItsDisc
        } else {
            LeafRoute::OrphanCue
        }
    } else {
        LeafRoute::File
    }
}

pub fn leaf_route(leaf: &str, consumed: bool) -> (r: LeafRoute)
    ensures
        r == leaf_route_spec(leaf@, consumed),
{
    let e = ext_of(leaf);
    if is_literal(&chars_of(e.as_str()), "cue") {
        if consumed {
            LeafRoute::WithItsDisc
        } else {
            LeafRoute::OrphanCue
        }
    } else {
        LeafRoute::File
    }
}

/// The report line of a cue sheet shelved with its disc: every file that
/// goes in comes back with a word, the cue sheets of a disc too.
pub fn with_its_disc(input: String) -> (r: ReportEntry)
    ensures
        r@ == (input@, OutcomeView::Extra("cue sheet shelved with its disc"@)),
{
    ReportEntry { input, outcome: Outcome::Extra { note: "cue sheet shelved with its disc".to_string() } }
}

/// The report line of a hashed file: a duplicate when the hash was already
/// shelved; otherwise quarantined when its copy failed, or shelved with the
/// word `shelved_outcome` gives.
pub fn hashed_entry(
    input: String,
    title: String,
    duplicate: bool,
    copied: Result<Option<String>, String>,
    probable: bool,
) -> (r: ReportEntry)
    ensures
        r@.0 == input@,
        duplicate ==> r@.1 == OutcomeView::Duplicate(title@),
        !duplicate ==> match copied {
            Err(e) => r@.1 == OutcomeView::Quarantined(e@),
            Ok(repaired) => r@.1 == match repaired {
                Some(note) => OutcomeView::Repaired(title@, note@),
                None => if probable {
                    OutcomeView::Probable(title@)
                } else {
                    OutcomeView::Added(title@)
                },
            },
        },
{
    if duplicate {
        return ReportEntry { input, outcome: Outcome::Duplicate { game: title } };
    }
    match copied {
        Err(e) => ReportEntry { input, outcome: Outcome::Quarantined { reason: e } },
        Ok(repaired) => ReportEntry { input, outcome: shelved_outcome(repaired, probable, title) },
    }
}

/// A file that could not be used, with the reason.
pub fn quarantine(input: String, reason: String) -> (r: ReportEntry)
    ensures
        r@ == (input@, OutcomeView::Quarantined(reason@)),
{
    ReportEntry { input, outcome: Outcome::Quarantined { reason } }
}

/// A file in a format Den does not handle.
pub fn unsupported(input: String, reason: String) -> (r: ReportEntry)
    ensures
        r@ == (input@, OutcomeView::Unsupported(reason@)),
{
    ReportEntry { input, outcome: Outcome::Unsupported { reason } }
}

/// The name a BIOS is filed under: the hash database's, then the name
/// list's, then the file's own stem.
pub fn bios_label(by_hash: Option<&str>, by_name: Option<&str>, stem: String) -> (r: String)
    ensures
        r@ == match by_hash {
            Some(h) => h@,
            None => match by_name {
                Some(n) => n@,
                None => stem@,
            },
        },
{
    match by_hash {
        Some(h) => h.to_string(),
        None => match by_name {
            Some(n) => n.to_string(),
            None => stem,
        },
    }
}

} // verus!

verus! {

/// Which pass of the shelving a leaf waits for.
#[derive(Debug, Clone, Copy, PartialEq, Eq, Structural)]
pub enum LeafClass {
    /// A disc image, shelved together with the other discs of its set.
    Disc,
    /// A rider (manual, art, save), shelved after the games it may belong to.
    Rider,
    /// Anything else, shelved on its own.
    Other,
}

/// Whether a path's file name is a known BIOS name in `names`.
pub open spec fn known_bios_name(path: Seq<char>, names: Seq<crate::table::Row>) -> bool {
    match std_file_name(path) {
        None => false,
        Some(n) => crate::table::row_find(names, lower_seq(n)) is Some,
    }
}

pub open spec fn leaf_class_spec(leaf: Seq<char>, names: Seq<crate::table::Row>) -> LeafClass {
    let ext = ext_spec(leaf);
    let is_bios = known_bios_name(leaf, names);
    if crate::unpack::disc_exts().contains(ext) && ext != "cue"@ && !is_bios {
        LeafClass::Disc
    } else if !is_bios && rider_first_spec(ext) {
        LeafClass::Rider
    } else {
        LeafClass::Other
    }
}

pub fn leaf_class(leaf: &str, bios: &BiosIndex) -> (r: LeafClass)
    ensures
        r == leaf_class_spec(leaf@, bios@.1),
{
    let ext = ext_of(leaf);
    let is_bios = bios.matches_name(leaf).is_some();
    if crate::unpack::is_disc_ext(ext.as_str()) && !is_literal(&chars_of(ext.as_str()), "cue")
        && !is_bios {
        LeafClass::Disc
    } else if !is_bios && is_rider_first(ext.as_str()) {
        LeafClass::Rider
    } else {
        LeafClass::Other
    }
}

pub type GroupView = (Seq<char>, Seq<Seq<char>>);

/// The last group keyed `k`, or -1.
pub open spec fn group_position(g: Seq<GroupView>, k: Seq<char>) -> int
    decreases g.len(),
{
    if g.len() == 0 {
        -1
    } else if g.last().0 == k {
        g.len() - 1
    } else {
        group_position(g.drop_last(), k)
    }
}

pub proof fn lemma_group_position(g: Seq<GroupView>, k: Seq<char>)
    ensures
        -1 <= group_position(g, k) < g.len(),
        group_position(g, k) >= 0 ==> g[group_position(g, k)].0 == k,
        forall|j: int| group_position(g, k) < j < g.len() ==> g[j].0 != k,
    decreases g.len(),
{
    if g.len() > 0 && g.last().0 != k {
        lemma_group_position(g.drop_last(), k);
        assert forall|j: int| group_position(g, k) < j < g.len() implies g[j].0 != k by {
            if j < g.len() - 1 {
                assert(g[j] == g.drop_last()[j]);
            }
        }
    }
}

/// `l` added to the group keyed `k`, or to a new group at the end.
pub open spec fn add_to_group(g: Seq<GroupView>, k: Seq<char>, l: Seq<char>) -> Seq<GroupView> {
    let p = group_position(g, k);
    if p < 0 {
        g.push((k, seq![l]))
    } else {
        g.update(p, (k, g[p].1.push(l)))
    }
}

/// How a run of leaves is split: disc sets grouped by their key, then the
/// others and the riders, each in the order they came.
pub open spec fn plan_spec(leaves: Seq<Seq<char>>, names: Seq<crate::table::Row>) -> (
    Seq<GroupView>,
    Seq<Seq<char>>,
    Seq<Seq<char>>,
)
    decreases leaves.len(),
{
    if leaves.len() == 0 {
        (Seq::<GroupView>::empty(), Seq::<Seq<char>>::empty(), Seq::<Seq<char>>::empty())
    } else {
        let (g, o, r) = plan_spec(leaves.drop_last(), names);
        let l = leaves.last();
        match leaf_class_spec(l, names) {
            LeafClass::Disc => (add_to_group(g, lower_seq(disc_title_spec(l)), l), o, r),
            LeafClass::Rider => (g, o, r.push(l)),
            LeafClass::Other => (g, o.push(l), r),
        }
    }
}

/// How many leaves a set of groups holds.
pub open spec fn members(g: Seq<GroupView>) -> nat
    decreases g.len(),
{
    if g.len() == 0 {
        0
    } else {
        members(g.drop_last()) + g.last().1.len()
    }
}

proof fn lemma_members_update(g: Seq<GroupView>, p: int, x: GroupView)
    requires
        0 <= p < g.len(),
    ensures
        members(g.update(p, x)) + g[p].1.len() == members(g) + x.1.len(),
    decreases g.len(),
{
    if p < g.len() - 1 {
        assert(g.update(p, x).drop_last() =~= g.drop_last().update(p, x));
        lemma_members_update(g.drop_last(), p, x);
    } else {
        assert(g.update(p, x).drop_last() =~= g.drop_last());
    }
}

/// Every leaf the groups hold, counted as often as it is held.
pub open spec fn member_bag(g: Seq<GroupView>) -> Multiset<Seq<char>>
    decreases g.len(),
{
    if g.len() == 0 {
        Multiset::empty()
    } else {
        member_bag(g.drop_last()).add(g.last().1.to_multiset())
    }
}

proof fn lemma_member_bag_update(g: Seq<GroupView>, p: int, x: GroupView)
    requires
        0 <= p < g.len(),
    ensures
        member_bag(g.update(p, x)).add(g[p].1.to_multiset()) =~= member_bag(g).add(x.1.to_multiset()),
    decreases g.len(),
{
    broadcast use vstd::multiset::group_multiset_axioms;

    let gu = g.update(p, x);
    let gd = g.drop_last();
    assert(member_bag(g) == member_bag(gd).add(g.last().1.to_multiset()));
    assert(member_bag(gu) == member_bag(gu.drop_last()).add(gu.last().1.to_multiset()));
    if p < g.len() - 1 {
        assert(gu.drop_last() =~= gd.update(p, x));
        lemma_member_bag_update(gd, p, x);
        assert(gu.last() == g.last());
        assert(gd[p] == g[p]);
        let lhs = member_bag(gu).add(g[p].1.to_multiset());
        let rhs = member_bag(g).add(x.1.to_multiset());
        assert forall|e: Seq<char>| lhs.count(e) == rhs.count(e) by {
            assert(member_bag(gd.update(p, x)).add(gd[p].1.to_multiset()).count(e) == member_bag(gd).add(
                x.1.to_multiset(),
            ).count(e));
        }
    } else {
        assert(gu.drop_last() =~= gd);
        assert(g.last() == g[p]);
        assert(gu.last() == x);
    }
}

proof fn lemma_grouping_keeps_every_leaf(leaves: Seq<Seq<char>>, names: Seq<crate::table::Row>)
    ensures
        ({
            let (g, o, r) = plan_spec(leaves, names);
            &&& members(g) + o.len() + r.len() == leaves.len()
            &&& member_bag(g).add(o.to_multiset()).add(r.to_multiset()) =~= leaves.to_multiset()
        }),
    decreases leaves.len(),
{
    broadcast use vstd::seq_lib::group_to_multiset_ensures;
    broadcast use vstd::multiset::group_multiset_axioms;

    if leaves.len() == 0 {
        assert(leaves.to_multiset() =~= Multiset::<Seq<char>>::empty());
        assert(Seq::<Seq<char>>::empty().to_multiset() =~= Multiset::<Seq<char>>::empty());
    } else {
        lemma_grouping_keeps_every_leaf(leaves.drop_last(), names);
        let (g, o, r) = plan_spec(leaves.drop_last(), names);
        let l = leaves.last();
        assert(leaves.drop_last().push(l) =~= leaves);
        assert(leaves.to_multiset() =~= leaves.drop_last().to_multiset().insert(l));
        match leaf_class_spec(l, names) {
            LeafClass::Disc => {
                let k = lower_seq(disc_title_spec(l));
                let p = group_position(g, k);
                lemma_group_position(g, k);
                if p < 0 {
                    let g2 = g.push((k, seq![l]));
                    assert(g2.drop_last() =~= g);
                    assert(seq![l].to_multiset() =~= Seq::<Seq<char>>::empty().push(l).to_multiset());
                    assert(Seq::<Seq<char>>::empty().to_multiset() =~= Multiset::<Seq<char>>::empty());
                    assert(member_bag(g2) =~= member_bag(g).insert(l));
                } else {
                    lemma_members_update(g, p, (k, g[p].1.push(l)));
                    let x = (k, g[p].1.push(l));
                    lemma_member_bag_update(g, p, x);
                    assert(x.1.to_multiset() =~= g[p].1.to_multiset().insert(l));
                    let a = member_bag(g.update(p, x));
                    assert forall|e: Seq<char>| a.count(e) == member_bag(g).insert(l).count(e) by {
                        assert(a.add(g[p].1.to_multiset()).count(e) == member_bag(g).add(x.1.to_multiset()).count(e));
                    }
                    assert(a =~= member_bag(g).insert(l));
                }
            },
            LeafClass::Rider => {
                assert(r.push(l).to_multiset() =~= r.to_multiset().insert(l));
            },
            LeafClass::Other => {
                assert(o.push(l).to_multiset() =~= o.to_multiset().insert(l));
            },
        }
    }
}

/// The split of a run of leaves into disc sets, others and riders.
pub struct ShelvePlan {
    pub groups: Vec<(String, Vec<String>)>,
    pub others: Vec<String>,
    pub riders: Vec<String>,
}

pub open spec fn strings(v: Seq<String>) -> Seq<Seq<char>> {
    v.map_values(|s: String| s@)
}

pub open spec fn groups_view(g: Seq<(String, Vec<String>)>) -> Seq<GroupView> {
    g.map_values(|x: (String, Vec<String>)| (x.0@, strings(x.1@)))
}

fn copy_strings(v: &Vec<String>) -> (r: Vec<String>)
    ensures
        strings(r@) == strings(v@),
{
    let mut out: Vec<String> = Vec::new();
    let mut i: usize = 0;
    while i < v.len()
        invariant
            i <= v@.len(),
            strings(out@) == strings(v@).take(i as int),
        decreases v@.len() - i,
    {
        let c = v[i].clone();
        assert(c@ == v@[i as int]@);
        let ghost before = out@;
        out.push(c);
        assert(strings(out@) =~= strings(before).push(c@));
        i += 1;
        assert(strings(out@) =~= strings(v@).take(i as int));
    }
    assert(strings(v@).take(v@.len() as int) =~= strings(v@));
    out
}

/// The last group keyed `key`.
fn find_group(groups: &Vec<(String, Vec<String>)>, key: &str) -> (r: Option<usize>)
    ensures
        match r {
            Some(p) => p as int == group_position(groups_view(groups@), key@) && p < groups@.len(),
            None => group_position(groups_view(groups@), key@) == -1,
        },
{
    let ghost gv = groups_view(groups@);
    proof {
        lemma_group_position(gv, key@);
    }
    let kc = chars_of(key);
    let mut j: usize = groups.len();
    while j > 0
        invariant
            j <= groups@.len(),
            gv == groups_view(groups@),
            kc@ == key@,
            group_position(gv, key@) < j,
            -1 <= group_position(gv, key@),
            group_position(gv, key@) >= 0 ==> gv[group_position(gv, key@)].0 == key@,
            forall|m: int| group_position(gv, key@) < m < gv.len() ==> gv[m].0 != key@,
        decreases j,
    {
        assert(gv[j - 1] == (groups@[j - 1].0@, strings(groups@[j - 1].1@)));
        if crate::dat::is_literal_string(&kc, &groups[j - 1].0) {
            return Some(j - 1);
        }
        j -= 1;
    }
    None
}

fn group_leaves(leaves: &[String], bios: &BiosIndex) -> (r: ShelvePlan)
    ensures
        (groups_view(r.groups@), strings(r.others@), strings(r.riders@)) == plan_spec(
            leaves@.map_values(|s: String| s@),
            bios@.1,
        ),
{
    let ghost lv = leaves@.map_values(|s: String| s@);
    let mut groups: Vec<(String, Vec<String>)> = Vec::new();
    let mut others: Vec<String> = Vec::new();
    let mut riders: Vec<String> = Vec::new();
    let mut i: usize = 0;
    assert(lv.take(0) =~= Seq::<Seq<char>>::empty());
    assert(groups_view(groups@) =~= Seq::<GroupView>::empty());
    assert(strings(others@) =~= Seq::<Seq<char>>::empty());
    assert(strings(riders@) =~= Seq::<Seq<char>>::empty());
    while i < leaves.len()
        invariant
            i <= leaves@.len(),
            lv == leaves@.map_values(|s: String| s@),
            (groups_view(groups@), strings(others@), strings(riders@)) == plan_spec(
                lv.take(i as int),
                bios@.1,
            ),
        decreases leaves@.len() - i,
    {
        let leaf = &leaves[i];
        assert(lv[i as int] == leaf@);
        assert(lv.take(i + 1).drop_last() =~= lv.take(i as int));
        let class = leaf_class(leaf.as_str(), bios);
        match class {
            LeafClass::Disc => {
                let key = disc_key(leaf.as_str());
                let ghost gv = groups_view(groups@);
                proof {
                    lemma_group_position(gv, key@);
                }
                match find_group(&groups, key.as_str()) {
                    Some(p) => {
                        let mut members = copy_strings(&groups[p].1);
                        members.push(leaf.clone());
                        assert(gv[p as int] == (groups@[p as int].0@, strings(groups@[p as int].1@)));
                        assert(strings(members@) =~= gv[p as int].1.push(leaf@));
                        groups.set(p, (key, members));
                        assert(groups_view(groups@) =~= gv.update(
                            p as int,
                            (key@, gv[p as int].1.push(leaf@)),
                        ));
                    },
                    None => {
                        let mut members: Vec<String> = Vec::new();
                        members.push(leaf.clone());
                        assert(strings(members@) =~= seq![leaf@]);
                        groups.push((key, members));
                        assert(groups_view(groups@) =~= gv.push((key@, seq![leaf@])));
                    },
                }
            },
            LeafClass::Rider => {
                riders.push(leaf.clone());
                assert(strings(riders@) =~= plan_spec(lv.take(i as int), bios@.1).2.push(leaf@));
            },
            LeafClass::Other => {
                others.push(leaf.clone());
                assert(strings(others@) =~= plan_spec(lv.take(i as int), bios@.1).1.push(leaf@));
            },
        }
        i += 1;
    }
    assert(lv.take(leaves@.len() as int) =~= lv);
    ShelvePlan { groups, others, riders }
}


/// A disc set with its discs in order.
pub open spec fn sorted_group(x: GroupView) -> GroupView {
    (x.0, in_text_order(x.1))
}

/// Where a set goes among the sets: by its first disc.
pub open spec fn group_order_key(x: GroupView) -> KeyView {
    KeyView {
        tier: 0u8,
        num: 0u64,
        text: if x.1.len() > 0 {
            x.1[0]
        } else {
            Seq::<char>::empty()
        },
    }
}

/// The disc sets in order: each set's discs sorted, and the sets by their
/// first disc.
pub open spec fn sort_groups(g: Seq<GroupView>) -> Seq<GroupView> {
    let s = g.map_values(|x: GroupView| sorted_group(x));
    sorted_positions(s.len(), s.map_values(|x: GroupView| group_order_key(x))).map_values(|p: int| s[p])
}

/// How a run of leaves is split: the disc sets in order, then the others
/// and the riders in the order they came.
pub open spec fn sorted_plan(leaves: Seq<Seq<char>>, names: Seq<crate::table::Row>) -> (
    Seq<GroupView>,
    Seq<Seq<char>>,
    Seq<Seq<char>>,
) {
    let (g, o, r) = plan_spec(leaves, names);
    (sort_groups(g), o, r)
}

proof fn lemma_member_bag_front(a: GroupView, s: Seq<GroupView>)
    ensures
        member_bag(seq![a] + s) =~= a.1.to_multiset().add(member_bag(s)),
    decreases s.len(),
{
    broadcast use vstd::multiset::group_multiset_axioms;

    let e = Seq::<GroupView>::empty();
    assert(member_bag(e) == Multiset::<Seq<char>>::empty());
    if s.len() == 0 {
        assert((seq![a] + s).drop_last() =~= e);
        assert((seq![a] + s).last() == a);
        assert(member_bag(seq![a] + s) == member_bag(e).add(a.1.to_multiset()));
        assert(s =~= e);
    } else {
        lemma_member_bag_front(a, s.drop_last());
        assert((seq![a] + s).drop_last() =~= seq![a] + s.drop_last());
        assert((seq![a] + s).last() == s.last());
        assert(member_bag(seq![a] + s) == member_bag(seq![a] + s.drop_last()).add(s.last().1.to_multiset()));
        assert(member_bag(s) == member_bag(s.drop_last()).add(s.last().1.to_multiset()));
    }
}

proof fn lemma_ins_member_bag(g: Seq<GroupView>, s: Seq<int>, x: int, keys: Seq<KeyView>)
    ensures
        member_bag(ins(s, x, keys).map_values(|p: int| g[p])) =~= member_bag(s.map_values(|p: int| g[p])).add(
            g[x].1.to_multiset(),
        ),
    decreases s.len(),
{
    broadcast use vstd::multiset::group_multiset_axioms;

    let e = Seq::<GroupView>::empty();
    if s.len() == 0 {
        assert(ins(s, x, keys).map_values(|p: int| g[p]) =~= seq![g[x]] + e);
        lemma_member_bag_front(g[x], e);
        assert(s.map_values(|p: int| g[p]) =~= e);
    } else if key_lt(keys[x], keys[s[0]]) {
        let m = s.map_values(|p: int| g[p]);
        assert(ins(s, x, keys).map_values(|p: int| g[p]) =~= seq![g[x]] + m);
        lemma_member_bag_front(g[x], m);
    } else {
        let t = s.drop_first();
        lemma_ins_member_bag(g, t, x, keys);
        let mt = t.map_values(|p: int| g[p]);
        let mi = ins(t, x, keys).map_values(|p: int| g[p]);
        assert(ins(s, x, keys).map_values(|p: int| g[p]) =~= seq![g[s[0]]] + mi);
        assert(s.map_values(|p: int| g[p]) =~= seq![g[s[0]]] + mt);
        lemma_member_bag_front(g[s[0]], mi);
        lemma_member_bag_front(g[s[0]], mt);
    }
}

proof fn lemma_sorted_member_bag(g: Seq<GroupView>, keys: Seq<KeyView>, n: nat)
    requires
        n <= g.len(),
    ensures
        member_bag(sorted_positions(n, keys).map_values(|p: int| g[p])) =~= member_bag(g.take(n as int)),
    decreases n,
{
    broadcast use vstd::multiset::group_multiset_axioms;

    if n == 0 {
        assert(sorted_positions(0, keys).map_values(|p: int| g[p]) =~= Seq::<GroupView>::empty());
        assert(g.take(0) =~= Seq::<GroupView>::empty());
    } else {
        let m = (n - 1) as nat;
        lemma_sorted_member_bag(g, keys, m);
        lemma_ins_member_bag(g, sorted_positions(m, keys), m as int, keys);
        assert(g.take(n as int).drop_last() =~= g.take(m as int));
        assert(g.take(n as int).last() == g[m as int]);
    }
}

proof fn lemma_sorted_groups_bag(g: Seq<GroupView>)
    ensures
        member_bag(g.map_values(|x: GroupView| sorted_group(x))) =~= member_bag(g),
    decreases g.len(),
{
    broadcast use vstd::multiset::group_multiset_axioms;

    if g.len() > 0 {
        let s = g.map_values(|x: GroupView| sorted_group(x));
        lemma_sorted_groups_bag(g.drop_last());
        assert(s.drop_last() =~= g.drop_last().map_values(|x: GroupView| sorted_group(x)));
        assert(s.last() == sorted_group(g.last()));
        lemma_in_text_order_bag(g.last().1);
    }
}

/// Nothing is lost or doubled by the split: the disc sets, the others and
/// the riders together hold exactly the leaves, each as often as it came.
pub proof fn lemma_plan_keeps_every_leaf(leaves: Seq<Seq<char>>, names: Seq<crate::table::Row>)
    ensures
        ({
            let (g, o, r) = sorted_plan(leaves, names);
            member_bag(g).add(o.to_multiset()).add(r.to_multiset()) =~= leaves.to_multiset()
        }),
{
    lemma_grouping_keeps_every_leaf(leaves, names);
    let g = plan_spec(leaves, names).0;
    let s = g.map_values(|x: GroupView| sorted_group(x));
    lemma_sorted_member_bag(s, s.map_values(|x: GroupView| group_order_key(x)), s.len());
    assert(s.take(s.len() as int) =~= s);
    lemma_sorted_groups_bag(g);
}

/// How a run of leaves is split into disc sets, others and riders: each
/// set's discs in order and the sets by their first disc, the others and
/// the riders in the order they came.
pub fn plan_leaves(leaves: &[String], bios: &BiosIndex) -> (r: ShelvePlan)
    ensures
        (groups_view(r.groups@), strings(r.others@), strings(r.riders@)) == sorted_plan(
            leaves@.map_values(|s: String| s@),
            bios@.1,
        ),
{
    let plan = group_leaves(leaves, bios);
    let ghost g = groups_view(plan.groups@);
    let ghost sg = g.map_values(|x: GroupView| sorted_group(x));
    // Each set's discs in order.
    let mut inner: Vec<(String, Vec<String>)> = Vec::new();
    let mut keys: Vec<SortKey> = Vec::new();
    let mut i: usize = 0;
    while i < plan.groups.len()
        invariant
            i <= plan.groups@.len(),
            g == groups_view(plan.groups@),
            sg == g.map_values(|x: GroupView| sorted_group(x)),
            groups_view(inner@) == sg.take(i as int),
            keys@.map_values(|k: SortKey| k@) == sg.take(i as int).map_values(|x: GroupView| group_order_key(x)),
        decreases plan.groups@.len() - i,
    {
        let (key, files) = &plan.groups[i];
        assert(g[i as int] == (key@, strings(files@)));
        let sorted = sorted_texts(files);
        assert(strings(sorted@) =~= text_views(sorted@));
        assert(text_views(files@) =~= strings(files@));
        let first: Vec<char> = if sorted.len() > 0 {
            chars_of(sorted[0].as_str())
        } else {
            Vec::new()
        };
        let k = SortKey { tier: 0, num: 0, text: first };
        assert(k@ == group_order_key(sg[i as int]));
        let ghost bi = groups_view(inner@);
        let ghost bk = keys@.map_values(|k: SortKey| k@);
        inner.push((key.clone(), sorted));
        keys.push(k);
        assert(groups_view(inner@) =~= bi.push(sg[i as int]));
        assert(sg.take(i + 1) =~= sg.take(i as int).push(sg[i as int]));
        assert(keys@.map_values(|k: SortKey| k@) =~= bk.push(k@));
        i += 1;
    }
    assert(sg.take(i as int) =~= sg);
    // The sets by their first disc.
    let order = sort_positions(&keys);
    let ghost sp = sorted_positions(sg.len(), sg.map_values(|x: GroupView| group_order_key(x)));
    let mut groups: Vec<(String, Vec<String>)> = Vec::new();
    let mut j: usize = 0;
    while j < order.len()
        invariant
            j <= order@.len(),
            order@.len() == inner@.len(),
            groups_view(inner@) == sg,
            order@.map_values(|p: usize| p as int) == sp,
            forall|m: int| 0 <= m < order@.len() ==> #[trigger] order@[m] < inner@.len(),
            groups_view(groups@) == sp.take(j as int).map_values(|p: int| sg[p]),
        decreases order@.len() - j,
    {
        let p = order[j];
        assert(sp[j as int] == p as int);
        let (key, files) = &inner[p];
        assert(sg[p as int] == (key@, strings(files@)));
        let ghost before = groups_view(groups@);
        groups.push((key.clone(), copy_strings(files)));
        assert(groups_view(groups@) =~= before.push(sg[p as int]));
        assert(sp.take(j + 1) =~= sp.take(j as int).push(p as int));
        j += 1;
    }
    assert(sp.take(order@.len() as int) =~= sp);
    ShelvePlan { groups, others: plan.others, riders: plan.riders }
}


/// How a disc set is shelved: several discs as one game with a playlist,
/// a lone disc on its own.
#[derive(Debug, Clone, Copy, PartialEq, Eq, Structural)]
pub enum GroupRoute {
    Several,
    Single,
}

pub fn group_route(files: &Vec<String>) -> (r: GroupRoute)
    ensures
        r == if files@.len() > 1 {
            GroupRoute::Several
        } else {
            GroupRoute::Single
        },
{
    if files.len() > 1 {
        GroupRoute::Several
    } else {
        GroupRoute::Single
    }
}

/// Every disc of the sets, set after set.
pub open spec fn discs_of(g: Seq<GroupView>) -> Seq<Seq<char>>
    decreases g.len(),
{
    if g.len() == 0 {
        Seq::<Seq<char>>::empty()
    } else {
        discs_of(g.drop_last()) + g.last().1
    }
}

/// The files a plan's report speaks of, in its order: the discs of the
/// sets, then the others, then the riders.
pub open spec fn report_inputs(plan: (Seq<GroupView>, Seq<Seq<char>>, Seq<Seq<char>>)) -> Seq<Seq<char>> {
    discs_of(plan.0) + plan.1 + plan.2
}

/// The leaves outside the disc sets: the others, then the riders.
pub open spec fn loose_leaves(plan: (Seq<GroupView>, Seq<Seq<char>>, Seq<Seq<char>>)) -> Seq<Seq<char>> {
    plan.1 + plan.2
}

pub open spec fn plan_view(plan: ShelvePlan) -> (Seq<GroupView>, Seq<Seq<char>>, Seq<Seq<char>>) {
    (groups_view(plan.groups@), strings(plan.others@), strings(plan.riders@))
}

fn route_each(leaves: &Vec<String>, consumed: &Vec<String>, out: &mut Vec<LeafRoute>)
    ensures
        final(out)@.len() == old(out)@.len() + leaves@.len(),
        forall|k: int| 0 <= k < old(out)@.len() ==> #[trigger] final(out)@[k] == old(out)@[k],
        forall|k: int|
            0 <= k < leaves@.len() ==> #[trigger] final(out)@[old(out)@.len() + k] == leaf_route_spec(
                leaves@[k]@,
                strings(consumed@).contains(leaves@[k]@),
            ),
{
    broadcast use vstd::seq_lib::lemma_seq_contains_after_push;

    let ghost start = out@;
    let ghost cv = strings(consumed@);
    let mut i: usize = 0;
    while i < leaves.len()
        invariant
            i <= leaves@.len(),
            cv == strings(consumed@),
            out@.len() == start.len() + i,
            forall|k: int| 0 <= k < start.len() ==> #[trigger] out@[k] == start[k],
            forall|k: int|
                0 <= k < i ==> #[trigger] out@[start.len() + k] == leaf_route_spec(
                    leaves@[k]@,
                    cv.contains(leaves@[k]@),
                ),
        decreases leaves@.len() - i,
    {
        let leaf = &leaves[i];
        let mut used = false;
        let mut j: usize = 0;
        assert(cv.take(0) =~= Seq::<Seq<char>>::empty());
        while j < consumed.len()
            invariant
                j <= consumed@.len(),
                cv == strings(consumed@),
                used == cv.take(j as int).contains(leaf@),
            decreases consumed@.len() - j,
        {
            let ghost t = cv.take(j as int);
            assert(cv.take(j + 1) =~= t.push(consumed@[j as int]@));
            let same = crate::dat::is_literal_string(&chars_of(leaf.as_str()), &consumed[j]);
            if same {
                assert(cv.take(j + 1)[j as int] == leaf@);
                used = true;
            } else {
                assert(cv.take(j + 1).contains(leaf@) == t.contains(leaf@)) by {
                    let t1 = cv.take(j + 1);
                    if t1.contains(leaf@) {
                        let m = choose|m: int| 0 <= m < t1.len() && t1[m] == leaf@;
                        assert(m != j);
                        assert(t[m] == leaf@);
                    }
                    if t.contains(leaf@) {
                        let m = choose|m: int| 0 <= m < t.len() && t[m] == leaf@;
                        assert(t1[m] == leaf@);
                    }
                }
            }
            j += 1;
        }
        assert(cv.take(j as int) =~= cv);
        out.push(leaf_route(leaf.as_str(), used));
        i += 1;
    }
}

/// What becomes of each leaf outside the disc sets, given the cue sheets
/// that went with a disc.
pub fn leaf_routes(plan: &ShelvePlan, consumed: &Vec<String>) -> (r: Vec<LeafRoute>)
    ensures
        r@.len() == loose_leaves(plan_view(*plan)).len(),
        forall|k: int|
            0 <= k < r@.len() ==> #[trigger] r@[k] == leaf_route_spec(
                loose_leaves(plan_view(*plan))[k],
                strings(consumed@).contains(loose_leaves(plan_view(*plan))[k]),
            ),
{
    let mut out: Vec<LeafRoute> = Vec::new();
    route_each(&plan.others, consumed, &mut out);
    let ghost out1 = out@;
    route_each(&plan.riders, consumed, &mut out);
    let ghost ll = loose_leaves(plan_view(*plan));
    let ghost n = plan.others@.len() as int;
    assert forall|k: int| 0 <= k < out@.len() implies #[trigger] out@[k] == leaf_route_spec(
        ll[k],
        strings(consumed@).contains(ll[k]),
    ) by {
        if k < n {
            assert(ll[k] == plan.others@[k]@);
            assert(out@[k] == out1[k]);
            assert(out1[0 + k] == out1[k]);
        } else {
            assert(ll[k] == plan.riders@[k - n]@);
            assert(out@[n + (k - n)] == out@[k]);
        }
    }
    out
}

/// Each outcome, as what it says.
pub open spec fn outcome_views(v: Seq<Outcome>) -> Seq<OutcomeView> {
    v.map_values(|o: Outcome| o@)
}

/// The outcomes of each set, set after set.
pub open spec fn lines_of(v: Seq<Seq<OutcomeView>>) -> Seq<OutcomeView>
    decreases v.len(),
{
    if v.len() == 0 {
        Seq::<OutcomeView>::empty()
    } else {
        lines_of(v.drop_last()) + v.last()
    }
}

pub open spec fn set_lines(v: Seq<Vec<Outcome>>) -> Seq<Seq<OutcomeView>> {
    v.map_values(|l: Vec<Outcome>| outcome_views(l@))
}

/// The report's lines: each file with what became of it.
pub open spec fn paired(inputs: Seq<Seq<char>>, outcomes: Seq<OutcomeView>) -> Seq<(Seq<char>, OutcomeView)> {
    Seq::new(inputs.len(), |k: int| (inputs[k], outcomes[k]))
}

pub open spec fn entry_views(v: Seq<ReportEntry>) -> Seq<(Seq<char>, OutcomeView)> {
    v.map_values(|e: ReportEntry| e@)
}

fn pair_lines(out: &mut Vec<ReportEntry>, files: &Vec<String>, outs: &mut Vec<Outcome>)
    requires
        old(outs)@.len() >= files@.len(),
    ensures
        outcome_views(final(outs)@) == outcome_views(old(outs)@).skip(files@.len() as int),
        entry_views(final(out)@) == entry_views(old(out)@) + paired(
            strings(files@),
            outcome_views(old(outs)@).take(files@.len() as int),
        ),
{
    let ghost before = entry_views(out@);
    let ghost lv = outcome_views(outs@);
    let mut j: usize = 0;
    assert(lv.skip(0) =~= lv);
    while j < files.len()
        invariant
            j <= files@.len(),
            lv.len() >= files@.len(),
            outcome_views(outs@) == lv.skip(j as int),
            entry_views(out@) == before + paired(strings(files@).take(j as int), lv.take(j as int)),
        decreases files@.len() - j,
    {
        assert(outs@.len() > 0) by {
            assert(outcome_views(outs@).len() == lv.len() - j);
        }
        let ghost ob = outs@;
        let o = outs.remove(0);
        assert(o@ == lv[j as int]) by {
            assert(outcome_views(ob)[0] == ob[0]@);
            assert(lv.skip(j as int)[0] == lv[j as int]);
        }
        assert(outcome_views(outs@) =~= lv.skip(j + 1)) by {
            assert(outs@ == ob.remove(0));
            assert(outcome_views(ob).len() == ob.len());
            assert(ob.len() == lv.len() - j);
            assert(outs@.len() == ob.len() - 1);
            assert forall|m: int| 0 <= m < outs@.len() implies outcome_views(outs@)[m] == lv.skip(j + 1)[m] by {
                assert(outs@[m] == ob[m + 1]);
                assert(outcome_views(ob)[m + 1] == lv.skip(j as int)[m + 1]);
                assert(lv.skip(j as int)[m + 1] == lv[j + m + 1]);
                assert(lv.skip(j + 1)[m] == lv[j + 1 + m]);
            }
        }
        let ghost eb = entry_views(out@);
        out.push(ReportEntry { input: files[j].clone(), outcome: o });
        assert(entry_views(out@) =~= eb.push((strings(files@)[j as int], lv[j as int])));
        assert(paired(strings(files@).take(j + 1), lv.take(j + 1)) =~= paired(
            strings(files@).take(j as int),
            lv.take(j as int),
        ).push((strings(files@)[j as int], lv[j as int])));
        j += 1;
    }
    assert(strings(files@).take(j as int) =~= strings(files@));
}

/// The report of a shelving: one line for every file of the plan, in the
/// plan's order, each with the outcome shelving gave it. `set_outcomes`
/// holds each set's outcomes, disc by disc; `leaf_outcomes` those of the
/// others and then the riders.
pub fn assemble_report(plan: &ShelvePlan, set_outcomes: Vec<Vec<Outcome>>, leaf_outcomes: Vec<Outcome>) -> (r: Vec<
    ReportEntry,
>)
    requires
        set_outcomes@.len() == plan.groups@.len(),
        forall|i: int| 0 <= i < set_outcomes@.len() ==> (#[trigger] set_outcomes@[i])@.len() == plan.groups@[i].1@.len(),
        leaf_outcomes@.len() == plan.others@.len() + plan.riders@.len(),
    ensures
        entry_views(r@) == paired(
            report_inputs(plan_view(*plan)),
            lines_of(set_lines(set_outcomes@)) + outcome_views(leaf_outcomes@),
        ),
{
    let ghost gv = groups_view(plan.groups@);
    let ghost sl = set_lines(set_outcomes@);
    let ghost so = set_outcomes@;
    let mut sets = set_outcomes;
    let mut out: Vec<ReportEntry> = Vec::new();
    let mut i: usize = 0;
    assert(gv.take(0) =~= Seq::<GroupView>::empty());
    assert(sl.take(0) =~= Seq::<Seq<OutcomeView>>::empty());
    assert(sets@ =~= so.skip(0));
    assert(entry_views(out@) =~= paired(discs_of(gv.take(0)), lines_of(sl.take(0))));
    while i < plan.groups.len()
        invariant
            i <= plan.groups@.len(),
            gv == groups_view(plan.groups@),
            so.len() == gv.len(),
            sl == set_lines(so),
            forall|m: int| 0 <= m < so.len() ==> (#[trigger] so[m])@.len() == plan.groups@[m].1@.len(),
            sets@ == so.skip(i as int),
            entry_views(out@) == paired(discs_of(gv.take(i as int)), lines_of(sl.take(i as int))),
            discs_of(gv.take(i as int)).len() == lines_of(sl.take(i as int)).len(),
        decreases plan.groups@.len() - i,
    {
        let ghost sb = sets@;
        let mut lines = sets.remove(0);
        assert(lines == so[i as int]) by {
            assert(sb[0] == so[i as int]);
        }
        assert(sets@ =~= so.skip(i + 1));
        let files = &plan.groups[i].1;
        assert(gv[i as int].1 == strings(files@));
        assert(outcome_views(lines@) == sl[i as int]);
        pair_lines(&mut out, files, &mut lines);
        assert(outcome_views(so[i as int]@).take(files@.len() as int) =~= sl[i as int]);
        assert(gv.take(i + 1).drop_last() =~= gv.take(i as int));
        assert(gv.take(i + 1).last() == gv[i as int]);
        assert(sl.take(i + 1).drop_last() =~= sl.take(i as int));
        assert(sl.take(i + 1).last() == sl[i as int]);
        assert(entry_views(out@) =~= paired(discs_of(gv.take(i + 1)), lines_of(sl.take(i + 1))));
        i += 1;
    }
    assert(gv.take(i as int) =~= gv);
    assert(sl.take(i as int) =~= sl);
    let ghost head = entry_views(out@);
    let ghost lo = outcome_views(leaf_outcomes@);
    let mut rest = leaf_outcomes;
    pair_lines(&mut out, &plan.others, &mut rest);
    assert(rest@.len() >= plan.riders@.len()) by {
        assert(outcome_views(rest@).len() == rest@.len());
        assert(lo.skip(plan.others@.len() as int).len() == plan.riders@.len());
    }
    pair_lines(&mut out, &plan.riders, &mut rest);
    let ghost no = plan.others@.len() as int;
    assert(lo.skip(no).take(plan.riders@.len() as int) =~= lo.skip(no));
    assert(lo =~= lo.take(no) + lo.skip(no));
    assert(entry_views(out@) =~= paired(
        report_inputs(plan_view(*plan)),
        lines_of(sl) + lo,
    ));
    out
}

proof fn lemma_discs_bag(g: Seq<GroupView>)
    ensures
        discs_of(g).to_multiset() =~= member_bag(g),
    decreases g.len(),
{
    broadcast use vstd::seq_lib::group_to_multiset_ensures;

    if g.len() == 0 {
        assert(Seq::<Seq<char>>::empty().to_multiset() =~= Multiset::<Seq<char>>::empty());
    } else {
        lemma_discs_bag(g.drop_last());
        vstd::seq_lib::lemma_multiset_commutative(discs_of(g.drop_last()), g.last().1);
    }
}

/// Every file that goes in comes back with a word: the report of a
/// shelving speaks of each leaf of the drop exactly as often as it came,
/// whatever shelving made of it.
pub proof fn lemma_every_file_comes_back_with_a_word(leaves: Seq<Seq<char>>, names: Seq<crate::table::Row>)
    ensures
        report_inputs(sorted_plan(leaves, names)).to_multiset() =~= leaves.to_multiset(),
{
    lemma_plan_keeps_every_leaf(leaves, names);
    let (g, o, r) = sorted_plan(leaves, names);
    lemma_discs_bag(g);
    vstd::seq_lib::lemma_multiset_commutative(discs_of(g), o);
    vstd::seq_lib::lemma_multiset_commutative(discs_of(g) + o, r);
}

} // verus!

verus! {

/// The note the first disc of a set carries when a playlist was built.
pub open spec fn playlist_note() -> Seq<char> {
    "built multi-disc playlist"@
}

/// The report line for disc `i` of a set: a note starting with `!` is the
/// reason its copy failed; otherwise it was added, or repaired with its own
/// note and, on the first disc, the playlist's.
pub open spec fn multi_entry_spec(
    input: Seq<char>,
    title: Seq<char>,
    note: Option<Seq<char>>,
    first_with_playlist: bool,
) -> (Seq<char>, OutcomeView) {
    match note {
        Some(n) if n.len() > 0 && n[0] == '!' => (input, OutcomeView::Quarantined(n.skip(1))),
        _ => (
            input,
            match note {
                None => if first_with_playlist {
                    OutcomeView::Repaired(title, playlist_note())
                } else {
                    OutcomeView::Added(title)
                },
                Some(n) => if first_with_playlist {
                    OutcomeView::Repaired(title, n + ", "@ + playlist_note())
                } else {
                    OutcomeView::Repaired(title, n)
                },
            },
        ),
    }
}

pub open spec fn note_at(notes: Seq<Option<String>>, i: int) -> Option<Seq<char>> {
    if 0 <= i < notes.len() {
        match notes[i] {
            Some(n) => Some(n@),
            None => None,
        }
    } else {
        None
    }
}

/// One report line for each disc of a multi-disc set.
pub fn multi_disc_entries(inputs: &[String], title: &str, notes: &[Option<String>], playlist: bool) -> (r:
    Vec<ReportEntry>)
    ensures
        r@.len() == inputs@.len(),
        forall|i: int|
            0 <= i < inputs@.len() ==> #[trigger] r@[i]@ == multi_entry_spec(
                inputs@[i]@,
                title@,
                note_at(notes@, i),
                i == 0 && playlist,
            ),
{
    let mut out: Vec<ReportEntry> = Vec::new();
    let mut i: usize = 0;
    while i < inputs.len()
        invariant
            i <= inputs@.len(),
            out@.len() == i,
            forall|k: int|
                0 <= k < i ==> #[trigger] out@[k]@ == multi_entry_spec(
                    inputs@[k]@,
                    title@,
                    note_at(notes@, k),
                    k == 0 && playlist,
                ),
        decreases inputs@.len() - i,
    {
        let input = inputs[i].clone();
        let note: Option<String> = if i < notes.len() {
            match &notes[i] {
                Some(n) => Some(n.clone()),
                None => None,
            }
        } else {
            None
        };
        assert(match note {
            Some(n) => note_at(notes@, i as int) == Some(n@),
            None => note_at(notes@, i as int) is None,
        });
        let first_with_playlist = i == 0 && playlist;
        let entry = match note {
            Some(n) => {
                let nc = chars_of(n.as_str());
                if nc.len() > 0 && nc[0] == '!' {
                    let reason = slice_chars(&nc, 1, nc.len());
                    assert(reason@ =~= n@.skip(1));
                    ReportEntry {
                        input,
                        outcome: Outcome::Quarantined { reason: string_from_chars(&reason) },
                    }
                } else if first_with_playlist {
                    let mut v = nc;
                    push_str(&mut v, ", ");
                    push_str(&mut v, "built multi-disc playlist");
                    ReportEntry {
                        input,
                        outcome: Outcome::Repaired {
                            game: title.to_string(),
                            note: string_from_chars(&v),
                        },
                    }
                } else {
                    ReportEntry { input, outcome: Outcome::Repaired { game: title.to_string(), note: n } }
                }
            },
            None => {
                if first_with_playlist {
                    ReportEntry {
                        input,
                        outcome: Outcome::Repaired {
                            game: title.to_string(),
                            note: "built multi-disc playlist".to_string(),
                        },
                    }
                } else {
                    ReportEntry { input, outcome: Outcome::Added { game: title.to_string() } }
                }
            },
        };
        out.push(entry);
        i += 1;
    }
    out
}

/// What the shelving of one run remembers: the hashes already shelved, and
/// where each title (lower-cased) was shelved and under which game id.
pub struct ShelfMemory {
    seen: Vec<String>,
    shelved: Vec<(String, String, Option<i64>)>,
}

pub type ShelvedView = (Seq<char>, Seq<char>, Option<i64>);

/// The last record for title key `k`, or -1.
pub open spec fn shelved_position(s: Seq<ShelvedView>, k: Seq<char>) -> int
    decreases s.len(),
{
    if s.len() == 0 {
        -1
    } else if s.last().0 == k {
        s.len() - 1
    } else {
        shelved_position(s.drop_last(), k)
    }
}

pub proof fn lemma_shelved_position(s: Seq<ShelvedView>, k: Seq<char>)
    ensures
        -1 <= shelved_position(s, k) < s.len(),
        shelved_position(s, k) >= 0 ==> s[shelved_position(s, k)].0 == k,
        forall|j: int| shelved_position(s, k) < j < s.len() ==> s[j].0 != k,
    decreases s.len(),
{
    if s.len() > 0 && s.last().0 != k {
        lemma_shelved_position(s.drop_last(), k);
        assert forall|j: int| shelved_position(s, k) < j < s.len() implies s[j].0 != k by {
            if j < s.len() - 1 {
                assert(s[j] == s.drop_last()[j]);
            }
        }
    }
}

/// Where title key `k` was shelved, and its game id.
pub open spec fn owner_spec(s: Seq<ShelvedView>, k: Seq<char>) -> Option<(Seq<char>, Option<i64>)> {
    let p = shelved_position(s, k);
    if p < 0 {
        None
    } else {
        Some((s[p].1, s[p].2))
    }
}

/// Remembering a title: its folder is replaced, its game id only by a
/// known one.
pub open spec fn remember_spec(s: Seq<ShelvedView>, k: Seq<char>, dir: Seq<char>, id: Option<i64>) -> Seq<
    ShelvedView,
> {
    let p = shelved_position(s, k);
    if p < 0 {
        s.push((k, dir, id))
    } else {
        s.update(
            p,
            (
                k,
                dir,
                match id {
                    Some(_) => id,
                    None => s[p].2,
                },
            ),
        )
    }
}

/// A file shelved once in a run is a duplicate the second time: once its
/// (non-empty) hash is noted, the memory reports it as seen, whatever the
/// library holds, and every hash noted before stays noted.
pub proof fn lemma_noted_hash_is_a_duplicate(seen: Seq<Seq<char>>, sha1: Seq<char>, other: Seq<char>, in_library: bool)
    requires
        sha1.len() > 0,
    ensures
        seen.push(sha1).contains(sha1),
        sha1.len() > 0 && (seen.push(sha1).contains(sha1) || in_library),
        seen.contains(other) ==> seen.push(sha1).contains(other),
{
    assert(seen.push(sha1)[seen.len() as int] == sha1);
    if seen.contains(other) {
        let i = choose|i: int| 0 <= i < seen.len() && seen[i] == other;
        assert(seen.push(sha1)[i] == other);
    }
}

/// What the memory says after remembering a title: the new folder, the new
/// game id if one was given and the earlier one if not; other titles as
/// before.
pub proof fn lemma_remember_then_owner(
    s: Seq<ShelvedView>,
    k: Seq<char>,
    dir: Seq<char>,
    id: Option<i64>,
    other: Seq<char>,
)
    ensures
        owner_spec(remember_spec(s, k, dir, id), k) == Some(
            (
                dir,
                match id {
                    Some(_) => id,
                    None => match owner_spec(s, k) {
                        Some(o) => o.1,
                        None => None,
                    },
                },
            ),
        ),
        other != k ==> owner_spec(remember_spec(s, k, dir, id), other) == owner_spec(s, other),
{
    lemma_shelved_position(s, k);
    lemma_shelved_position(s, other);
    let s2 = remember_spec(s, k, dir, id);
    lemma_shelved_position(s2, k);
    lemma_shelved_position(s2, other);
    let p = shelved_position(s, k);
    if p < 0 {
        assert(s2.drop_last() =~= s);
    } else {
        assert(s2[p].0 == k);
        assert forall|j: int| p < j < s2.len() implies s2[j].0 != k by {
            assert(s2[j] == s[j]);
        }
        assert(shelved_position(s2, k) == p);
        if other != k {
            let q = shelved_position(s, other);
            let q2 = shelved_position(s2, other);
            if q2 >= 0 && q2 != p {
                assert(s[q2].0 == other);
            }
            if q >= 0 {
                assert(s2[q].0 == other);
            }
        }
    }
}

impl View for ShelfMemory {
    type V = (Seq<Seq<char>>, Seq<ShelvedView>);

    closed spec fn view(&self) -> (Seq<Seq<char>>, Seq<ShelvedView>) {
        (strings(self.seen@), self.shelved@.map_values(|x: (String, String, Option<i64>)| (x.0@, x.1@, x.2)))
    }
}

impl ShelfMemory {
    pub fn new() -> (r: ShelfMemory)
        ensures
            r@.0 == Seq::<Seq<char>>::empty(),
            r@.1 == Seq::<ShelvedView>::empty(),
    {
        let r = ShelfMemory { seen: Vec::new(), shelved: Vec::new() };
        assert(r@.0 =~= Seq::<Seq<char>>::empty());
        assert(r@.1 =~= Seq::<ShelvedView>::empty());
        r
    }

    /// Note a hash as shelved in this run; an empty one (hashing failed) is
    /// not noted.
    pub fn note_hash(&mut self, sha1: String)
        ensures
            final(self)@.1 == old(self)@.1,
            final(self)@.0 == if sha1@.len() == 0 {
                old(self)@.0
            } else {
                old(self)@.0.push(sha1@)
            },
    {
        if !sha1.as_str().is_empty() {
            let ghost before = self@.0;
            self.seen.push(sha1);
            assert(self@.0 =~= before.push(sha1@));
        }
    }

    /// Whether a hash was shelved earlier in this run.
    pub fn has_seen(&self, sha1: &str) -> (r: bool)
        ensures
            r == self@.0.contains(sha1@),
    {
        let k = chars_of(sha1);
        let mut i: usize = 0;
        while i < self.seen.len()
            invariant
                i <= self.seen@.len(),
                k@ == sha1@,
                forall|j: int| 0 <= j < i ==> self@.0[j] != sha1@,
            decreases self.seen@.len() - i,
        {
            assert(self@.0[i as int] == self.seen@[i as int]@);
            if crate::dat::is_literal_string(&k, &self.seen[i]) {
                assert(self@.0[i as int] == sha1@);
                return true;
            }
            i += 1;
        }
        false
    }

    /// Whether a file with this hash is a duplicate: the hash is known, and
    /// was shelved in this run or is already in the library.
    pub fn is_duplicate(&self, sha1: &str, in_library: bool) -> (r: bool)
        ensures
            r == (sha1@.len() > 0 && (self@.0.contains(sha1@) || in_library)),
    {
        let k = chars_of(sha1);
        k.len() > 0 && (self.has_seen(sha1) || in_library)
    }

    fn find(&self, key: &[char]) -> (r: Option<usize>)
        ensures
            match r {
                Some(p) => p as int == shelved_position(self@.1, key@) && p < self.shelved@.len(),
                None => shelved_position(self@.1, key@) == -1,
            },
    {
        proof {
            lemma_shelved_position(self@.1, key@);
        }
        let mut j: usize = self.shelved.len();
        while j > 0
            invariant
                j <= self.shelved@.len(),
                self@.1.len() == self.shelved@.len(),
                forall|m: int| 0 <= m < self.shelved@.len() ==> self@.1[m] == (self.shelved@[m].0@, self.shelved@[m].1@, self.shelved@[m].2),
                shelved_position(self@.1, key@) < j,
                -1 <= shelved_position(self@.1, key@),
                shelved_position(self@.1, key@) >= 0 ==> self@.1[shelved_position(self@.1, key@)].0 == key@,
                forall|m: int| shelved_position(self@.1, key@) < m < self@.1.len() ==> self@.1[m].0 != key@,
            decreases j,
        {
            if crate::dat::is_literal_string(key, &self.shelved[j - 1].0) {
                assert(self@.1[j - 1].0 == key@);
                return Some(j - 1);
            }
            j -= 1;
        }
        None
    }

    /// Remember where a title was shelved.
    pub fn remember(&mut self, title: &str, dir: &str, game_id: Option<i64>)
        ensures
            final(self)@.0 == old(self)@.0,
            final(self)@.1 == remember_spec(old(self)@.1, lower_seq(title@), dir@, game_id),
    {
        let key = lower_chars(&chars_of(title));
        let ghost before = self@.1;
        match self.find(&key) {
            Some(p) => {
                let id = match game_id {
                    Some(_) => game_id,
                    None => self.shelved[p].2,
                };
                assert(before[p as int] == (self.shelved@[p as int].0@, self.shelved@[p as int].1@, self.shelved@[p as int].2));
                self.shelved.set(p, (string_from_chars(&key), dir.to_string(), id));
                assert(self@.1 =~= before.update(p as int, (key@, dir@, id)));
            },
            None => {
                self.shelved.push((string_from_chars(&key), dir.to_string(), game_id));
                assert(self@.1 =~= before.push((key@, dir@, game_id)));
            },
        }
    }

    /// Where a title (by its lower-cased key) was shelved, and its game id.
    pub fn owner(&self, key: &str) -> (r: Option<(String, Option<i64>)>)
        ensures
            match r {
                None => owner_spec(self@.1, key@) is None,
                Some(o) => owner_spec(self@.1, key@) == Some((o.0@, o.1)),
            },
    {
        match self.find(&chars_of(key)) {
            None => None,
            Some(p) => {
                assert(self@.1[p as int] == (self.shelved@[p as int].0@, self.shelved@[p as int].1@, self.shelved@[p as int].2));
                Some((self.shelved[p].1.clone(), self.shelved[p].2))
            },
        }
    }
}

} // verus!
