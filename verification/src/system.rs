//! The consoles Den knows, their names, file extensions and default cores.

use vstd::prelude::*;
use crate::text::{chars_of, is_literal, lower_chars, lower_seq};

verus! {

broadcast use vstd::string::group_string_axioms;

#[derive(Debug, Clone, Copy, PartialEq, Eq, Hash, Structural)]
pub enum System {
    Nes,
    Snes,
    Genesis,
    SegaCd,
    Sega32x,
    N64,
    Ps1,
    Gb,
    Gbc,
    Gba,
    Arcade,
    Dos,
    Ps2,
    Gamecube,
    Wii,
}

/// Every system, in the order lookups try them.
pub open spec fn all_systems() -> Seq<System> {
    seq![
        System::Nes,
        System::Snes,
        System::Genesis,
        System::SegaCd,
        System::Sega32x,
        System::N64,
        System::Ps1,
        System::Gb,
        System::Gbc,
        System::Gba,
        System::Arcade,
        System::Dos,
        System::Ps2,
        System::Gamecube,
        System::Wii,
    ]
}

pub fn all() -> (r: [System; 15])
    ensures
        r@ == all_systems(),
{
    let r = [
        System::Nes,
        System::Snes,
        System::Genesis,
        System::SegaCd,
        System::Sega32x,
        System::N64,
        System::Ps1,
        System::Gb,
        System::Gbc,
        System::Gba,
        System::Arcade,
        System::Dos,
        System::Ps2,
        System::Gamecube,
        System::Wii,
    ];
    assert(r@ =~= all_systems());
    r
}

pub open spec fn name_of(s: System) -> Seq<char> {
    match s {
        System::Nes => "NES"@,
        System::Snes => "SNES"@,
        System::Genesis => "Genesis"@,
        System::SegaCd => "Sega CD"@,
        System::Sega32x => "Sega 32X"@,
        System::N64 => "N64"@,
        System::Ps1 => "PlayStation"@,
        System::Gb => "GB"@,
        System::Gbc => "GBC"@,
        System::Gba => "GBA"@,
        System::Arcade => "Arcade"@,
        System::Dos => "DOS"@,
        System::Ps2 => "PlayStation 2"@,
        System::Gamecube => "GameCube"@,
        System::Wii => "Wii"@,
    }
}

pub open spec fn extensions_of(s: System) -> Seq<Seq<char>> {
    match s {
        System::Nes => seq!["nes"@, "fds"@],
        System::Snes => seq!["sfc"@, "smc"@, "fig"@],
        System::Genesis => seq!["md"@, "gen"@, "smd"@],
        System::SegaCd => seq!["bin"@, "cue"@, "chd"@],
        System::Sega32x => seq!["32x"@, "bin"@, "md"@],
        System::N64 => seq!["z64"@, "n64"@, "v64"@],
        System::Ps1 => seq!["bin"@, "cue"@, "chd"@, "iso"@, "pbp"@],
        System::Gb => seq!["gb"@],
        System::Gbc => seq!["gbc"@],
        System::Gba => seq!["gba"@],
        System::Arcade => seq!["zip"@],
        System::Dos => seq!["exe"@, "com"@, "bat"@, "conf"@],
        System::Ps2 => seq!["iso"@, "chd"@, "bin"@, "cue"@],
        System::Gamecube => seq!["iso"@, "gcm"@, "rvz"@, "nkit"@],
        System::Wii => seq!["iso"@, "wbfs"@, "rvz"@, "nkit"@],
    }
}

pub open spec fn core_of(s: System) -> Seq<char> {
    match s {
        System::Nes => "mesen"@,
        System::Snes => "snes9x"@,
        System::Genesis | System::SegaCd => "genesis_plus_gx"@,
        System::Sega32x => "picodrive"@,
        System::N64 => "mupen64plus_next"@,
        System::Ps1 => "swanstation"@,
        System::Gb | System::Gbc => "gambatte"@,
        System::Gba => "mgba"@,
        System::Arcade => "fbneo"@,
        System::Dos => "dosbox_pure"@,
        System::Ps2 => "pcsx2"@,
        System::Gamecube | System::Wii => "dolphin"@,
    }
}

/// The views of a list of string slices.
pub open spec fn strs(v: Seq<&str>) -> Seq<Seq<char>> {
    v.map_values(|x: &str| x@)
}

/// The first system in `list` that claims extension `e`.
pub open spec fn first_with_extension(list: Seq<System>, e: Seq<char>) -> Option<System>
    decreases list.len(),
{
    if list.len() == 0 {
        None
    } else if extensions_of(list[0]).contains(e) {
        Some(list[0])
    } else {
        first_with_extension(list.drop_first(), e)
    }
}

/// The first system in `list` named `n`.
pub open spec fn first_named(list: Seq<System>, n: Seq<char>) -> Option<System>
    decreases list.len(),
{
    if list.len() == 0 {
        None
    } else if name_of(list[0]) == n {
        Some(list[0])
    } else {
        first_named(list.drop_first(), n)
    }
}

/// Whether `e` is one of the literals in `list`.
pub fn among(e: &[char], list: &[&str]) -> (r: bool)
    ensures
        r == strs(list@).contains(e@),
{
    let mut i: usize = 0;
    while i < list.len()
        invariant
            i <= list@.len(),
            forall|k: int| 0 <= k < i ==> list@[k]@ != e@,
        decreases list@.len() - i,
    {
        if is_literal(e, list[i]) {
            assert(strs(list@)[i as int] == e@);
            return true;
        }
        i += 1;
    }
    assert forall|k: int| 0 <= k < strs(list@).len() implies strs(list@)[k] != e@ by {
        assert(strs(list@)[k] == list@[k]@);
    }
    false
}

impl System {
    pub fn name(self) -> (r: &'static str)
        ensures
            r@ == name_of(self),
    {
        match self {
            System::Nes => "NES",
            System::Snes => "SNES",
            System::Genesis => "Genesis",
            System::SegaCd => "Sega CD",
            System::Sega32x => "Sega 32X",
            System::N64 => "N64",
            System::Ps1 => "PlayStation",
            System::Gb => "GB",
            System::Gbc => "GBC",
            System::Gba => "GBA",
            System::Arcade => "Arcade",
            System::Dos => "DOS",
            System::Ps2 => "PlayStation 2",
            System::Gamecube => "GameCube",
            System::Wii => "Wii",
        }
    }

    pub fn extensions(self) -> (r: &'static [&'static str])
        ensures
            strs(r@) == extensions_of(self),
    {
        let r: &'static [&'static str] = match self {
            System::Nes => &["nes", "fds"],
            System::Snes => &["sfc", "smc", "fig"],
            System::Genesis => &["md", "gen", "smd"],
            System::SegaCd => &["bin", "cue", "chd"],
            System::Sega32x => &["32x", "bin", "md"],
            System::N64 => &["z64", "n64", "v64"],
            System::Ps1 => &["bin", "cue", "chd", "iso", "pbp"],
            System::Gb => &["gb"],
            System::Gbc => &["gbc"],
            System::Gba => &["gba"],
            System::Arcade => &["zip"],
            System::Dos => &["exe", "com", "bat", "conf"],
            System::Ps2 => &["iso", "chd", "bin", "cue"],
            System::Gamecube => &["iso", "gcm", "rvz", "nkit"],
            System::Wii => &["iso", "wbfs", "rvz", "nkit"],
        };
        assert(strs(r@) =~= extensions_of(self));
        r
    }

    /// The system whose extension list holds `ext`, compared without regard
    /// to ASCII case; the first in `all_systems()` order when several do.
    pub fn from_extension(ext: &str) -> (r: Option<System>)
        ensures
            r == first_with_extension(all_systems(), lower_seq(ext@)),
    {
        let e = lower_chars(&chars_of(ext));
        let list = all();
        let mut i: usize = 0;
        assert(all_systems().skip(0) =~= all_systems());
        while i < 15
            invariant
                i <= 15,
                list@ == all_systems(),
                e@ == lower_seq(ext@),
                first_with_extension(all_systems(), e@) == first_with_extension(
                    all_systems().skip(i as int),
                    e@,
                ),
            decreases 15 - i,
        {
            let s = list[i];
            assert(all_systems().skip(i as int)[0] == s);
            assert(all_systems().skip(i as int).drop_first() =~= all_systems().skip(i + 1));
            if among(&e, s.extensions()) {
                return Some(s);
            }
            i += 1;
        }
        None
    }

    /// The system called `name`, exactly.
    pub fn from_name(name: &str) -> (r: Option<System>)
        ensures
            r == first_named(all_systems(), name@),
    {
        let n = chars_of(name);
        let list = all();
        let mut i: usize = 0;
        assert(all_systems().skip(0) =~= all_systems());
        while i < 15
            invariant
                i <= 15,
                list@ == all_systems(),
                n@ == name@,
                first_named(all_systems(), n@) == first_named(all_systems().skip(i as int), n@),
            decreases 15 - i,
        {
            let s = list[i];
            assert(all_systems().skip(i as int)[0] == s);
            assert(all_systems().skip(i as int).drop_first() =~= all_systems().skip(i + 1));
            if is_literal(&n, s.name()) {
                return Some(s);
            }
            i += 1;
        }
        None
    }

    pub fn default_core(self) -> (r: &'static str)
        ensures
            r@ == core_of(self),
    {
        match self {
            System::Nes => "mesen",
            System::Snes => "snes9x",
            System::Genesis | System::SegaCd => "genesis_plus_gx",
            System::Sega32x => "picodrive",
            System::N64 => "mupen64plus_next",
            System::Ps1 => "swanstation",
            System::Gb | System::Gbc => "gambatte",
            System::Gba => "mgba",
            System::Arcade => "fbneo",
            System::Dos => "dosbox_pure",
            System::Ps2 => "pcsx2",
            System::Gamecube | System::Wii => "dolphin",
        }
    }
}

/// Where a system stands in `all_systems()`.
pub open spec fn position(s: System) -> int {
    match s {
        System::Nes => 0,
        System::Snes => 1,
        System::Genesis => 2,
        System::SegaCd => 3,
        System::Sega32x => 4,
        System::N64 => 5,
        System::Ps1 => 6,
        System::Gb => 7,
        System::Gbc => 8,
        System::Gba => 9,
        System::Arcade => 10,
        System::Dos => 11,
        System::Ps2 => 12,
        System::Gamecube => 13,
        System::Wii => 14,
    }
}

/// No two systems share a name.
pub proof fn lemma_names_distinct(a: System, b: System)
    ensures
        a != b ==> name_of(a) != name_of(b),
{
    reveal_strlit("NES");
    reveal_strlit("SNES");
    reveal_strlit("Genesis");
    reveal_strlit("Sega CD");
    reveal_strlit("Sega 32X");
    reveal_strlit("N64");
    reveal_strlit("PlayStation");
    reveal_strlit("GB");
    reveal_strlit("GBC");
    reveal_strlit("GBA");
    reveal_strlit("Arcade");
    reveal_strlit("DOS");
    reveal_strlit("PlayStation 2");
    reveal_strlit("GameCube");
    reveal_strlit("Wii");
    if a != b && name_of(a) == name_of(b) {
        assert(name_of(a).len() == name_of(b).len());
        assert(name_of(a)[0] == name_of(b)[0]);
        assert(name_of(a)[name_of(a).len() - 1] == name_of(b)[name_of(b).len() - 1]);
        if name_of(a).len() > 2 {
            assert(name_of(a)[1] == name_of(b)[1]);
            assert(name_of(a)[2] == name_of(b)[2]);
        }
    }
}

proof fn lemma_first_named_from(i: int, s: System)
    requires
        0 <= i <= position(s),
    ensures
        first_named(all_systems().skip(i), name_of(s)) == Some(s),
    decreases position(s) - i,
{
    let rest = all_systems().skip(i);
    assert(rest[0] == all_systems()[i]);
    if i == position(s) {
        assert(all_systems()[position(s)] == s);
    } else {
        lemma_names_distinct(all_systems()[i], s);
        assert(all_systems()[i] != s);
        assert(rest.drop_first() =~= all_systems().skip(i + 1));
        lemma_first_named_from(i + 1, s);
    }
}

/// Every system's name leads back to that system.
pub proof fn lemma_from_name_inverts_name(s: System)
    ensures
        first_named(all_systems(), name_of(s)) == Some(s),
{
    lemma_first_named_from(0, s);
    assert(all_systems().skip(0) =~= all_systems());
}

/// Extension lookup does not care about ASCII case.
pub proof fn lemma_from_extension_ignores_case(e: Seq<char>)
    ensures
        first_with_extension(all_systems(), lower_seq(e)) == first_with_extension(
            all_systems(),
            lower_seq(lower_seq(e)),
        ),
{
    assert(lower_seq(lower_seq(e)) =~= lower_seq(e));
}

/// Each system gets a core of its own: two systems share a default core
/// only when one core emulates both machines (the Mega Drive and its CD
/// add-on, the Game Boy and the Game Boy Color, the GameCube and the Wii).
/// So a Game Boy Advance is never handed to a Game Boy core, nor the other
/// way round. Every default core has a name.
pub proof fn lemma_cores_are_shared_only_within_a_family(a: System, b: System)
    ensures
        core_of(a).len() > 0,
        core_of(a) == core_of(b) <==> (a == b || (a == System::Genesis && b == System::SegaCd) || (a
            == System::SegaCd && b == System::Genesis) || (a == System::Gb && b == System::Gbc) || (a
            == System::Gbc && b == System::Gb) || (a == System::Gamecube && b == System::Wii) || (a
            == System::Wii && b == System::Gamecube)),
{
    reveal_strlit("mesen");
    reveal_strlit("snes9x");
    reveal_strlit("genesis_plus_gx");
    reveal_strlit("picodrive");
    reveal_strlit("mupen64plus_next");
    reveal_strlit("swanstation");
    reveal_strlit("gambatte");
    reveal_strlit("mgba");
    reveal_strlit("fbneo");
    reveal_strlit("dosbox_pure");
    reveal_strlit("pcsx2");
    reveal_strlit("dolphin");
    let ca = core_of(a);
    let cb = core_of(b);
    assert(ca.len() > 0);
    if ca == cb {
        assert(ca.len() == cb.len() && ca[0] == cb[0] && ca[ca.len() - 1] == cb[cb.len() - 1]);
    }
}

} // verus!
