//! Identify a leaf file: a known BIOS name first, then magic bytes, then
//! its extension.

use vstd::prelude::*;
use crate::bios::{name_rows, BiosIndex};
use crate::magic::Kind;
use crate::path::std_file_name;
use crate::system::{all_systems, first_with_extension, System};
use crate::table::row_find;
use crate::text::{lower_seq};
use crate::unpack::{disc_exts, is_disc_ext, is_rider_ext, is_save_ext, is_save_ext_spec, rider_exts};
use crate::util::{ext_of, ext_spec};

verus! {

broadcast use vstd::string::group_string_axioms;

/// What kind of thing a leaf file is, before it is shelved.
#[derive(Debug, Clone, Copy, PartialEq, Eq, Structural)]
pub enum FileKind {
    Rom,
    Disc,
    Bios,
    Executable,
    Rider,
    Save,
    Archive,
    Alien,
}

/// A kind and a best-guess system.
#[derive(Debug, Clone, Copy)]
pub struct Identification {
    pub kind: FileKind,
    pub system: Option<System>,
    pub probable: bool,
}

/// Whether a system's games are disc images rather than cartridges.
pub open spec fn disc_system(s: System) -> bool {
    s == System::SegaCd || s == System::Ps1 || s == System::Ps2 || s == System::Gamecube || s
        == System::Wii
}

pub fn is_disc_system(sys: System) -> (r: bool)
    ensures
        r == disc_system(sys),
{
    match sys {
        System::SegaCd | System::Ps1 | System::Ps2 | System::Gamecube | System::Wii => true,
        _ => false,
    }
}

pub open spec fn ident(kind: FileKind, system: Option<System>, probable: bool) -> Identification {
    Identification { kind, system, probable }
}

/// Whether a path's file name is one of the bundled BIOS names.
pub open spec fn bios_name(path: Seq<char>) -> bool {
    match std_file_name(path) {
        None => false,
        Some(n) => row_find(name_rows(), lower_seq(n)) is Some,
    }
}

pub open spec fn dos_exts() -> Seq<Seq<char>> {
    seq!["exe"@, "com"@, "bat"@, "conf"@]
}

/// Identification without the head: a known BIOS name first, then the
/// extension.
pub open spec fn by_extension(path: Seq<char>, ext: Seq<char>) -> Identification {
    if bios_name(path) {
        ident(FileKind::Bios, None, true)
    } else if ext == "cue"@ {
        ident(FileKind::Rider, None, false)
    } else if is_save_ext_spec(ext) {
        ident(FileKind::Save, None, false)
    } else if dos_exts().contains(ext) {
        ident(FileKind::Executable, Some(System::Dos), true)
    } else if first_with_extension(all_systems(), lower_seq(ext)) is Some {
        let kind = if disc_exts().contains(ext) {
            FileKind::Disc
        } else {
            FileKind::Rom
        };
        ident(kind, first_with_extension(all_systems(), lower_seq(ext)), true)
    } else if rider_exts().contains(ext) {
        ident(FileKind::Rider, None, false)
    } else {
        ident(FileKind::Alien, None, false)
    }
}

/// The system a disc image with extension `ext` is taken for.
pub open spec fn disc_guess(ext: Seq<char>) -> System {
    match first_with_extension(all_systems(), lower_seq(ext)) {
        Some(s) => if disc_system(s) {
            s
        } else {
            System::Ps1
        },
        None => System::Ps1,
    }
}

/// Identification: a file named as a known BIOS is one, whatever its
/// extension or first bytes suggest; otherwise what the head said, then the
/// extension.
pub open spec fn identify_spec(path: Seq<char>, sniffed: Kind) -> Identification {
    let ext = ext_spec(path);
    if bios_name(path) {
        ident(FileKind::Bios, None, true)
    } else {
        sniffed_spec(path, ext, sniffed)
    }
}

/// Identification from what the head said and the extension.
pub open spec fn sniffed_spec(path: Seq<char>, ext: Seq<char>, sniffed: Kind) -> Identification {
    match sniffed {
        Kind::Archive(_) => if ext == "zip"@ {
            ident(FileKind::Rom, Some(System::Arcade), true)
        } else {
            ident(FileKind::Archive, None, false)
        },
        Kind::Rom(sys) => ident(FileKind::Rom, Some(sys), false),
        Kind::Iso9660 => ident(FileKind::Disc, Some(disc_guess(ext)), true),
        Kind::Mz => ident(FileKind::Executable, Some(System::Dos), true),
        Kind::Unknown => by_extension(path, ext),
    }
}

/// Identify a file from its path and what its first bytes said.
pub fn identify(path: &str, sniffed: Kind) -> (r: Identification)
    ensures
        r == identify_spec(path@, sniffed),
{
    if BiosIndex::bundled().matches_name(path).is_some() {
        return Identification { kind: FileKind::Bios, system: None, probable: true };
    }
    let ext = ext_of(path);
    match sniffed {
        Kind::Archive(_) => {
            if crate::text::is_literal(&crate::text::chars_of(ext.as_str()), "zip") {
                Identification { kind: FileKind::Rom, system: Some(System::Arcade), probable: true }
            } else {
                Identification { kind: FileKind::Archive, system: None, probable: false }
            }
        },
        Kind::Rom(sys) => Identification { kind: FileKind::Rom, system: Some(sys), probable: false },
        Kind::Iso9660 => {
            let sys = match System::from_extension(ext.as_str()) {
                Some(s) => if is_disc_system(s) {
                    s
                } else {
                    System::Ps1
                },
                None => System::Ps1,
            };
            Identification { kind: FileKind::Disc, system: Some(sys), probable: true }
        },
        Kind::Mz => Identification { kind: FileKind::Executable, system: Some(System::Dos), probable: true },
        Kind::Unknown => identify_by_extension(path, ext.as_str()),
    }
}

/// Identify a file without its head: by whether its name is a known BIOS,
/// then by its extension.
pub fn identify_by_extension(path: &str, ext: &str) -> (r: Identification)
    ensures
        r == by_extension(path@, ext@),
{
    if BiosIndex::bundled().matches_name(path).is_some() {
        return Identification { kind: FileKind::Bios, system: None, probable: true };
    }
    let e = crate::text::chars_of(ext);
    if crate::text::is_literal(&e, "cue") {
        return Identification { kind: FileKind::Rider, system: None, probable: false };
    }
    if is_save_ext(ext) {
        return Identification { kind: FileKind::Save, system: None, probable: false };
    }
    let dos: [&str; 4] = ["exe", "com", "bat", "conf"];
    assert(crate::system::strs(dos@) =~= dos_exts());
    if crate::system::among(&e, &dos) {
        return Identification { kind: FileKind::Executable, system: Some(System::Dos), probable: true };
    }
    if let Some(sys) = System::from_extension(ext) {
        let kind = if is_disc_ext(ext) {
            FileKind::Disc
        } else {
            FileKind::Rom
        };
        return Identification { kind, system: Some(sys), probable: true };
    }
    if is_rider_ext(ext) {
        return Identification { kind: FileKind::Rider, system: None, probable: false };
    }
    Identification { kind: FileKind::Alien, system: None, probable: false }
}

} // verus!
