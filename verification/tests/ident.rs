use den::dat::{bundled, Index};
use den::magic::{kinds, Archive, Kind};
use den::system::System;

#[test]
fn zip() {
    assert_eq!(kinds(b"PK\x03\x04rest"), Kind::Archive(Archive::Zip));
}

#[test]
fn seven_z() {
    assert_eq!(kinds(b"7z\xbc\xaf\x27\x1c"), Kind::Archive(Archive::SevenZ));
}

#[test]
fn rar4_and_rar5() {
    assert_eq!(kinds(b"Rar!\x1a\x07\x00rest"), Kind::Archive(Archive::Rar));
    assert_eq!(kinds(b"Rar!\x1a\x07\x01\x00rest"), Kind::Archive(Archive::Rar));
}

#[test]
fn gzip() {
    assert_eq!(kinds(&[0x1f, 0x8b, 0x08, 0x00]), Kind::Archive(Archive::Gzip));
}

#[test]
fn ines() {
    assert_eq!(kinds(b"NES\x1a\x02\x01\x01\x00"), Kind::Rom(System::Nes));
}

#[test]
fn n64_three_byte_orders() {
    for head in [
        &[0x80, 0x37, 0x12, 0x40][..],
        &[0x37, 0x80, 0x40, 0x12][..],
        &[0x40, 0x12, 0x37, 0x80][..],
    ] {
        assert_eq!(kinds(head), Kind::Rom(System::N64));
    }
}

#[test]
fn iso9660() {
    let mut head = vec![0u8; 0x8006];
    head[0x8001..0x8006].copy_from_slice(b"CD001");
    assert_eq!(kinds(&head), Kind::Iso9660);
}

#[test]
fn head_that_stops_inside_the_iso_marker_does_not_panic() {
    for len in 0x8000..=0x8005 {
        let mut head = vec![0u8; len];
        if len > 0x8001 {
            head[0x8001] = b'C';
        }
        assert_eq!(kinds(&head), Kind::Unknown, "len {len:#x}");
    }
}

#[test]
fn unknown() {
    assert_eq!(kinds(b"hello world"), Kind::Unknown);
}

#[test]
fn bundled_lookup() {
    let index = bundled();
    assert_eq!(index.len(), 3);
    let entry = index.lookup("0000000000000000000000000000000000000000").unwrap();
    assert_eq!(entry.title, "Corpus Fixture (USA)");
    assert_eq!(System::from_extension("nes"), Some(System::Nes));
}

#[test]
fn from_name_inverts_name() {
    for system in den::system::all() {
        assert_eq!(System::from_name(system.name()), Some(system));
    }
    assert_eq!(System::from_name("Atari"), None);
}

#[test]
fn tsv_roundtrip() {
    let index = Index::from_tsv(
        "# comment\n\
         aaaaaaaaaaaaaaaaaaaaaaaaaaaaaaaaaaaaaaaa\tSonic the Hedgehog (USA, Europe)\tGenesis\n\
         bbbbbbbbbbbbbbbbbbbbbbbbbbbbbbbbbbbbbbbb\tTwisted Metal (USA)\tPlayStation\n",
    );
    assert_eq!(index.len(), 2);
    let entry = index.lookup("aaaaaaaaaaaaaaaaaaaaaaaaaaaaaaaaaaaaaaaa").unwrap();
    assert_eq!(entry.title, "Sonic the Hedgehog (USA, Europe)");
    assert_eq!(Index::system_of(entry), Some(System::Genesis));
}

#[test]
fn malformed_lines_are_skipped() {
    let index = Index::from_tsv("not-a-hash\tTitle\tNES\n");
    assert_eq!(index.len(), 0);
    assert!(index.is_empty());
}

#[test]
fn a_later_line_replaces_an_earlier_one_with_the_same_hash() {
    let index = Index::from_tsv(
        "aaaaaaaaaaaaaaaaaaaaaaaaaaaaaaaaaaaaaaaa\tFirst\tNES\n\
         aaaaaaaaaaaaaaaaaaaaaaaaaaaaaaaaaaaaaaaa\tSecond\tSNES\n",
    );
    assert_eq!(index.len(), 1);
    let entry = index.lookup("aaaaaaaaaaaaaaaaaaaaaaaaaaaaaaaaaaaaaaaa").unwrap();
    assert_eq!(entry.title, "Second");
    assert_eq!(Index::system_of(entry), Some(System::Snes));
}

#[test]
fn system_names_are_read_in_any_case_and_by_alias() {
    let index = Index::from_tsv(
        "cccccccccccccccccccccccccccccccccccccccc\tA\t  mega drive \n\
         dddddddddddddddddddddddddddddddddddddddd\tB\tAtari\n",
    );
    let a = index.lookup("cccccccccccccccccccccccccccccccccccccccc").unwrap();
    assert_eq!(Index::system_of(a), Some(System::Genesis));
    let b = index.lookup("dddddddddddddddddddddddddddddddddddddddd").unwrap();
    assert_eq!(Index::system_of(b), None);
}

#[test]
fn an_extension_is_matched_without_regard_to_case() {
    assert_eq!(System::from_extension("SFC"), Some(System::Snes));
    assert_eq!(System::from_extension("Z64"), Some(System::N64));
    assert_eq!(System::from_extension("xyz"), None);
    assert_eq!(System::N64.default_core(), "mupen64plus_next");
    assert_eq!(System::Ps1.name(), "PlayStation");
}

#[test]
fn nes_header_is_rom() {
    let head = b"NES\x1a\x02\x01\x01\x00rest";
    let id = den::identify::identify("/drop/game.nes", kinds(head));
    assert_eq!(id.kind, den::identify::FileKind::Rom);
    assert_eq!(id.system, Some(System::Nes));
}

#[test]
fn unknown_text_is_rider() {
    let id = den::identify::identify("/drop/manual.txt", kinds(b"read me"));
    assert_eq!(id.kind, den::identify::FileKind::Rider);
}

#[test]
fn extension_only_snes_is_probable() {
    let id = den::identify::identify("/drop/Mario.sfc", kinds(&[0u8; 64]));
    assert_eq!(id.kind, den::identify::FileKind::Rom);
    assert_eq!(id.system, Some(System::Snes));
    assert!(id.probable);
}

#[test]
fn save_file_is_detected() {
    let id = den::identify::identify("/drop/game.srm", kinds(&[0u8; 8]));
    assert_eq!(id.kind, den::identify::FileKind::Save);
}

#[test]
fn sniff_reads_far_enough_to_see_a_disc() {
    let mut iso = vec![0u8; 0x9000];
    iso[0x8001..0x8006].copy_from_slice(b"CD001");
    let head = &iso[..den::magic::HEAD.min(iso.len())];
    assert_eq!(kinds(head), Kind::Iso9660);
}

#[test]
fn sniff_of_a_short_file_is_still_classified() {
    let file = b"NES\x1a\x02\x01";
    let head = &file[..den::magic::HEAD.min(file.len())];
    assert_eq!(kinds(head), Kind::Rom(System::Nes));
}

#[test]
fn an_entry_copied_out_of_the_index_is_the_same_entry() {
    let index = Index::from_tsv("cccccccccccccccccccccccccccccccccccccccc\tZelda (USA)\tNES\n");
    let entry = index.lookup("cccccccccccccccccccccccccccccccccccccccc").unwrap();
    let copy = entry.clone_entry();
    assert_eq!(copy.sha1, entry.sha1);
    assert_eq!(copy.title, "Zelda (USA)");
    assert_eq!(copy.system, "NES");
    assert!(index.lookup("dddddddddddddddddddddddddddddddddddddddd").is_none());
}

#[test]
fn a_bios_named_bin_is_a_bios_by_extension_too() {
    let id = den::identify::identify_by_extension("/x/scph1001.bin", "bin");
    assert_eq!(id.kind, den::identify::FileKind::Bios);
    assert_eq!(id.system, None);
    assert!(id.probable);
}
