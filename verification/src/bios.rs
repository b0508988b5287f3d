//! BIOS recognition: by hash (a user-supplied TSV) or by well-known filename.

use vstd::prelude::*;
use crate::path::{file_name, std_file_name};
use crate::table::{row_find, row_insert, rows_written, unique_rows, Row, Table};
use crate::text::{chars_of, field, field_of, lines, lines_chars, lower_chars, lower_seq, split, split_chars,
    string_from_chars, trim, trim_chars, views};
use crate::util::{byte_len, byte_len_is};

verus! {

broadcast use vstd::string::group_string_axioms;

/// The well-known BIOS file names, each with its canonical name.
pub open spec fn bundled_names() -> Seq<Row> {
    seq![
        ("scph1000.bin"@, "PlayStation SCPH-1000 BIOS"@),
        ("scph1001.bin"@, "PlayStation SCPH-1001 BIOS"@),
        ("scph5000.bin"@, "PlayStation SCPH-5000 BIOS"@),
        ("scph5500.bin"@, "PlayStation SCPH-5500 BIOS"@),
        ("scph5501.bin"@, "PlayStation SCPH-5501 BIOS"@),
        ("scph5502.bin"@, "PlayStation SCPH-5502 BIOS"@),
        ("scph7001.bin"@, "PlayStation SCPH-7001 BIOS"@),
        ("scph7502.bin"@, "PlayStation SCPH-7502 BIOS"@),
        ("psxonpsp660.bin"@, "PlayStation PSP 6.60 BIOS"@),
        ("gba_bios.bin"@, "Game Boy Advance BIOS"@),
        ("bios7.bin"@, "Nintendo DS ARM7 BIOS"@),
        ("bios9.bin"@, "Nintendo DS ARM9 BIOS"@),
        ("dc_boot.bin"@, "Dreamcast boot ROM"@),
        ("neogeo.zip"@, "Neo Geo BIOS"@),
    ]
}

/// The names as the index keys them: ASCII lower-cased.
pub open spec fn name_rows() -> Seq<Row> {
    rows_written(
        Seq::<Row>::empty(),
        bundled_names().map_values(|r: Row| (lower_seq(r.0), r.1)),
    )
}

/// The write one hash-TSV line `sha1<TAB>name` makes: the hash lower-cased,
/// nothing for blanks, comments, or lines without a 40-byte hash and a name.
pub open spec fn bios_tsv_line(l: Seq<char>) -> Option<Row> {
    let t = trim(l);
    if t.len() == 0 || t[0] == '#' {
        None
    } else {
        let parts = split(t, '\t');
        let sha1 = trim(field(parts, 0));
        let name = trim(field(parts, 1));
        if byte_len(sha1) == 40 && name.len() > 0 {
            Some((lower_seq(sha1), name))
        } else {
            None
        }
    }
}

/// The hash table a run of TSV lines builds.
pub open spec fn bios_rows(ls: Seq<Seq<char>>) -> Seq<Row>
    decreases ls.len(),
{
    if ls.len() == 0 {
        Seq::<Row>::empty()
    } else {
        let r = bios_rows(ls.drop_last());
        match bios_tsv_line(ls.last()) {
            None => r,
            Some(w) => row_insert(r, w),
        }
    }
}

/// A lookup of BIOS files, keyed by hash and by file name.
pub struct BiosIndex {
    by_hash: Table,
    by_name: Table,
}

impl View for BiosIndex {
    type V = (Seq<Row>, Seq<Row>);

    closed spec fn view(&self) -> (Seq<Row>, Seq<Row>) {
        (self.by_hash@, self.by_name@)
    }
}

impl BiosIndex {
    /// The bundled name list, with no hashes.
    pub fn bundled() -> (r: BiosIndex)
        ensures
            r@.0 == Seq::<Row>::empty(),
            r@.1 == name_rows(),
    {
        let names: [(&str, &str); 14] = [
            ("scph1000.bin", "PlayStation SCPH-1000 BIOS"),
            ("scph1001.bin", "PlayStation SCPH-1001 BIOS"),
            ("scph5000.bin", "PlayStation SCPH-5000 BIOS"),
            ("scph5500.bin", "PlayStation SCPH-5500 BIOS"),
            ("scph5501.bin", "PlayStation SCPH-5501 BIOS"),
            ("scph5502.bin", "PlayStation SCPH-5502 BIOS"),
            ("scph7001.bin", "PlayStation SCPH-7001 BIOS"),
            ("scph7502.bin", "PlayStation SCPH-7502 BIOS"),
            ("psxonpsp660.bin", "PlayStation PSP 6.60 BIOS"),
            ("gba_bios.bin", "Game Boy Advance BIOS"),
            ("bios7.bin", "Nintendo DS ARM7 BIOS"),
            ("bios9.bin", "Nintendo DS ARM9 BIOS"),
            ("dc_boot.bin", "Dreamcast boot ROM"),
            ("neogeo.zip", "Neo Geo BIOS"),
        ];
        let ghost writes = bundled_names().map_values(|r: Row| (lower_seq(r.0), r.1));
        assert(names@.map_values(|p: (&str, &str)| (p.0@, p.1@)) =~= bundled_names());
        let mut by_name = Table::new();
        let mut i: usize = 0;
        assert(writes.take(0) =~= Seq::<Row>::empty());
        while i < 14
            invariant
                i <= 14,
                names@.map_values(|p: (&str, &str)| (p.0@, p.1@)) == bundled_names(),
                writes == bundled_names().map_values(|r: Row| (lower_seq(r.0), r.1)),
                by_name@ == rows_written(Seq::<Row>::empty(), writes.take(i as int)),
            decreases 14 - i,
        {
            let (name, canonical) = names[i];
            assert(bundled_names()[i as int] == (name@, canonical@));
            let key = string_from_chars(&lower_chars(&chars_of(name)));
            by_name.insert(key, canonical.to_string());
            assert(writes.take(i + 1).drop_last() =~= writes.take(i as int));
            i += 1;
        }
        assert(writes.take(14) =~= writes);
        BiosIndex { by_hash: Table::new(), by_name }
    }

    /// The bundled names, with the hashes a `sha1<TAB>name` text lists.
    pub fn from_tsv(text: &str) -> (r: BiosIndex)
        ensures
            r@.0 == bios_rows(lines(text@)),
            r@.1 == name_rows(),
    {
        let mut index = BiosIndex::bundled();
        let ls = lines_chars(&chars_of(text));
        let ghost lv = lines(text@);
        let mut i: usize = 0;
        assert(lv.take(0) =~= Seq::<Seq<char>>::empty());
        while i < ls.len()
            invariant
                i <= ls@.len(),
                views(ls@) == lv,
                index@.1 == name_rows(),
                index@.0 == bios_rows(lv.take(i as int)),
            decreases ls@.len() - i,
        {
            assert(lv[i as int] == ls@[i as int]@);
            assert(lv.take(i + 1).drop_last() =~= lv.take(i as int));
            let t = trim_chars(&ls[i]);
            if t.len() > 0 && t[0] != '#' {
                let parts = split_chars(&t, '\t');
                let sha1 = field_of(&parts, 0);
                let name = field_of(&parts, 1);
                if byte_len_is(&sha1, 40) && name.len() > 0 {
                    let key = string_from_chars(&lower_chars(&sha1));
                    index.by_hash.insert(key, string_from_chars(&name));
                }
            }
            i += 1;
        }
        assert(lv.take(ls@.len() as int) =~= lv);
        index
    }

    /// The canonical name for a SHA-1, compared without regard to ASCII case.
    pub fn by_hash(&self, sha1: &str) -> (r: Option<&str>)
        ensures
            match r {
                None => row_find(self@.0, lower_seq(sha1@)) is None,
                Some(n) => row_find(self@.0, lower_seq(sha1@)) == Some(n@),
            },
    {
        let key = lower_chars(&chars_of(sha1));
        match self.by_hash.get(&key) {
            None => None,
            Some(v) => Some(v.as_str()),
        }
    }

    /// The canonical name for a file whose name is a known BIOS name,
    /// compared without regard to ASCII case.
    pub fn matches_name(&self, path: &str) -> (r: Option<&str>)
        ensures
            match std_file_name(path@) {
                None => r is None,
                Some(n) => match r {
                    None => row_find(self@.1, lower_seq(n)) is None,
                    Some(c) => row_find(self@.1, lower_seq(n)) == Some(c@),
                },
            },
    {
        let n = file_name(path)?;
        let key = lower_chars(&chars_of(n.as_str()));
        match self.by_name.get(&key) {
            None => None,
            Some(v) => Some(v.as_str()),
        }
    }
}

} // verus!
