//! What the diagnostic says of each place Den looked and of each core.
//!
//! Looking at the disk and printing are the diagnostic program's own; how
//! it classifies what it found is here.

use vstd::prelude::*;
use crate::locate::{Platform, core_file_spec, core_file_name};
use crate::system::{System, core_of, name_of};

verus! {

broadcast use vstd::string::group_string_axioms;

/// What was at a place Den looked: nothing (`-`), a directory, a program it
/// can run, or a file it cannot.
pub open spec fn place_note_spec(exists: bool, is_dir: bool, runnable: bool) -> Seq<char> {
    if !exists {
        "-"@
    } else if is_dir {
        "a directory, not a program"@
    } else if runnable {
        "runnable"@
    } else {
        "there, but not executable"@
    }
}

pub fn place_note(exists: bool, is_dir: bool, runnable: bool) -> (r: &'static str)
    ensures
        r@ == place_note_spec(exists, is_dir, runnable),
{
    if !exists {
        "-"
    } else if is_dir {
        "a directory, not a program"
    } else if runnable {
        "runnable"
    } else {
        "there, but not executable"
    }
}

/// The systems whose cores the diagnostic checks, in the order it reports
/// them.
pub open spec fn checked_systems() -> Seq<System> {
    seq![
        System::Nes,
        System::Snes,
        System::Genesis,
        System::N64,
        System::Ps1,
        System::Gb,
        System::Gba,
        System::Arcade,
        System::Dos,
    ]
}

pub fn doctor_systems() -> (r: [System; 9])
    ensures
        r@ == checked_systems(),
{
    let r = [
        System::Nes,
        System::Snes,
        System::Genesis,
        System::N64,
        System::Ps1,
        System::Gb,
        System::Gba,
        System::Arcade,
        System::Dos,
    ];
    assert(r@ =~= checked_systems());
    r
}

/// Each checked system's name and the file its default core is.
pub open spec fn core_rows_spec(p: Platform) -> Seq<(Seq<char>, Seq<char>)> {
    checked_systems().map_values(|s: System| (name_of(s), core_file_spec(core_of(s), p)))
}

pub fn core_rows(platform: Platform) -> (r: Vec<(&'static str, String)>)
    ensures
        r@.map_values(|x: (&str, String)| (x.0@, x.1@)) == core_rows_spec(platform),
{
    let systems = doctor_systems();
    let mut out: Vec<(&'static str, String)> = Vec::new();
    let mut i: usize = 0;
    while i < 9
        invariant
            i <= 9,
            systems@ == checked_systems(),
            out@.map_values(|x: (&str, String)| (x.0@, x.1@)) == core_rows_spec(platform).take(i as int),
        decreases 9 - i,
    {
        let s = systems[i];
        let row = (s.name(), core_file_name(s.default_core(), platform));
        let ghost before = out@.map_values(|x: (&str, String)| (x.0@, x.1@));
        let ghost rv = (row.0@, row.1@);
        out.push(row);
        assert(out@.map_values(|x: (&str, String)| (x.0@, x.1@)) =~= before.push(rv));
        i += 1;
        assert(out@.map_values(|x: (&str, String)| (x.0@, x.1@)) =~= core_rows_spec(platform).take(i as int));
    }
    assert(core_rows_spec(platform).take(9) =~= core_rows_spec(platform));
    out
}

/// How many of the places held something.
pub open spec fn count_existing(notes: Seq<Seq<char>>) -> nat
    decreases notes.len(),
{
    if notes.len() == 0 {
        0
    } else {
        count_existing(notes.drop_last()) + if notes.last() != "-"@ {
            1nat
        } else {
            0nat
        }
    }
}

pub fn existing_count(notes: &Vec<&'static str>) -> (r: usize)
    ensures
        r == count_existing(notes@.map_values(|n: &str| n@)),
{
    let ghost nv = notes@.map_values(|n: &str| n@);
    let mut c: usize = 0;
    let mut i: usize = 0;
    assert(nv.take(0) =~= Seq::<Seq<char>>::empty());
    while i < notes.len()
        invariant
            i <= notes@.len(),
            c <= i,
            nv == notes@.map_values(|n: &str| n@),
            c == count_existing(nv.take(i as int)),
        decreases notes@.len() - i,
    {
        assert(nv.take(i + 1).drop_last() =~= nv.take(i as int));
        assert(nv.take(i + 1).last() == notes@[i as int]@);
        if !crate::text::is_literal(&crate::text::chars_of(notes[i]), "-") {
            c += 1;
        }
        i += 1;
    }
    assert(nv.take(i as int) =~= nv);
    c
}

} // verus!
