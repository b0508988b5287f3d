//! The DAT index: SHA-1 to canonical title and system.

use vstd::prelude::*;
use crate::system::System;
use crate::text::{field, field_of, chars_of, is_literal, lines, lines_chars, lower_chars, lower_seq, split, split_chars, lemma_split_nonempty,
    string_from_chars, trim, trim_chars, views};
use crate::util::{byte_len, byte_len_is};

verus! {

broadcast use vstd::string::group_string_axioms;

/// One known dump.
#[derive(Debug)]
pub struct Entry {
    pub sha1: String,
    pub title: String,
    pub system: String,
}

/// An entry as text: (sha1, title, system).
pub type EntryView = (Seq<char>, Seq<char>, Seq<char>);

impl View for Entry {
    type V = EntryView;

    open spec fn view(&self) -> EntryView {
        (self.sha1@, self.title@, self.system@)
    }
}

impl Entry {
    pub fn clone_entry(&self) -> (r: Entry)
        ensures
            r@ == self@,
    {
        Entry { sha1: self.sha1.clone(), title: self.title.clone(), system: self.system.clone() }
    }
}

/// No two entries share a hash.
pub open spec fn unique_keys(s: Seq<EntryView>) -> bool {
    forall|i: int, j: int| 0 <= i < j < s.len() ==> s[i].0 != s[j].0
}

/// The last position holding hash `k`, or -1.
pub open spec fn position(s: Seq<EntryView>, k: Seq<char>) -> int
    decreases s.len(),
{
    if s.len() == 0 {
        -1
    } else if s.last().0 == k {
        s.len() - 1
    } else {
        position(s.drop_last(), k)
    }
}

/// The entry for hash `k`.
pub open spec fn find(s: Seq<EntryView>, k: Seq<char>) -> Option<EntryView> {
    let p = position(s, k);
    if p < 0 {
        None
    } else {
        Some(s[p])
    }
}

/// `HashMap::insert` on the index: an entry with the same hash is replaced
/// where it stands, a new hash goes on the end.
pub open spec fn insert_spec(s: Seq<EntryView>, e: EntryView) -> Seq<EntryView> {
    let p = position(s, e.0);
    if p < 0 {
        s.push(e)
    } else {
        s.update(p, e)
    }
}

pub proof fn lemma_position(s: Seq<EntryView>, k: Seq<char>)
    ensures
        -1 <= position(s, k) < s.len(),
        position(s, k) >= 0 ==> s[position(s, k)].0 == k,
        forall|j: int| position(s, k) < j < s.len() ==> s[j].0 != k,
    decreases s.len(),
{
    if s.len() > 0 && s.last().0 != k {
        lemma_position(s.drop_last(), k);
        assert forall|j: int| position(s, k) < j < s.len() implies s[j].0 != k by {
            if j < s.len() - 1 {
                assert(s[j] == s.drop_last()[j]);
            }
        }
    }
}

proof fn lemma_position_unique(s: Seq<EntryView>, k: Seq<char>, i: int)
    requires
        unique_keys(s),
        0 <= i < s.len(),
        s[i].0 == k,
    ensures
        position(s, k) == i,
{
    lemma_position(s, k);
}

/// What the index says after an insertion: the new entry for its own hash,
/// and for every other hash what it said before.
pub proof fn lemma_insert_then_find(s: Seq<EntryView>, e: EntryView, k: Seq<char>)
    requires
        unique_keys(s),
    ensures
        unique_keys(insert_spec(s, e)),
        find(insert_spec(s, e), k) == if k == e.0 {
            Some(e)
        } else {
            find(s, k)
        },
{
    lemma_position(s, e.0);
    lemma_position(s, k);
    let s2 = insert_spec(s, e);
    let p = position(s, e.0);
    if p < 0 {
        assert forall|j: int| 0 <= j < s.len() implies s[j].0 != e.0 by {}
        assert(s2.drop_last() =~= s);
        lemma_position(s2, k);
        if k != e.0 {
            assert(position(s2, k) == position(s, k));
        }
    } else {
        assert(unique_keys(s2));
        lemma_position(s2, k);
        if k == e.0 {
            lemma_position_unique(s2, k, p);
        } else {
            if position(s, k) >= 0 {
                lemma_position_unique(s2, k, position(s, k));
            } else {
                if position(s2, k) >= 0 {
                    assert(s[position(s2, k)].0 == k);
                }
            }
        }
    }
}

/// The DAT index, keyed by SHA-1.
pub struct Index {
    entries: Vec<Entry>,
}

impl View for Index {
    type V = Seq<EntryView>;

    closed spec fn view(&self) -> Seq<EntryView> {
        self.entries@.map_values(|e: Entry| e@)
    }
}

impl Index {
    #[verifier::type_invariant]
    closed spec fn inv(self) -> bool {
        unique_keys(self@)
    }

    /// An empty index.
    pub fn new() -> (r: Index)
        ensures
            r@ == Seq::<EntryView>::empty(),
    {
        let r = Index { entries: Vec::new() };
        assert(r@ =~= Seq::<EntryView>::empty());
        r
    }

    /// Add an entry, replacing any with the same hash.
    pub fn insert(&mut self, e: Entry)
        ensures
            final(self)@ == insert_spec(old(self)@, e@),
            unique_keys(old(self)@),
            unique_keys(final(self)@),
    {
        proof {
            use_type_invariant(&*self);
            lemma_position(self@, e@.0);
        }
        let key = chars_of(e.sha1.as_str());
        let mut i: usize = self.entries.len();
        while i > 0
            invariant
                i <= self.entries@.len(),
                self@ == old(self)@,
                unique_keys(self@),
                key@ == e@.0,
                position(self@, e@.0) < i,
            decreases i,
        {
            let ghost v = self@;
            proof {
                lemma_position(v, e@.0);
            }
            assert(v[i - 1] == self.entries@[i - 1]@);
            if is_literal_string(&key, &self.entries[i - 1].sha1) {
                let mut entries = Vec::new();
                std::mem::swap(&mut entries, &mut self.entries);
                entries.set(i - 1, e);
                let ghost w = entries@.map_values(|x: Entry| x@);
                assert(w =~= v.update(i - 1, e@));
                proof {
                    lemma_position_unique(v, e@.0, i - 1);
                    lemma_insert_then_find(v, e@, e@.0);
                }
                self.entries = entries;
                return;
            }
            i -= 1;
        }
        let ghost v = self@;
        proof {
            lemma_insert_then_find(v, e@, e@.0);
        }
        let mut entries = Vec::new();
        std::mem::swap(&mut entries, &mut self.entries);
        entries.push(e);
        assert(entries@.map_values(|x: Entry| x@) =~= v.push(e@));
        self.entries = entries;
    }

    /// The entry for a hash.
    pub fn lookup(&self, sha1: &str) -> (r: Option<&Entry>)
        ensures
            match r {
                None => find(self@, sha1@) is None,
                Some(e) => find(self@, sha1@) == Some(e@),
            },
    {
        proof {
            use_type_invariant(self);
            lemma_position(self@, sha1@);
        }
        let key = chars_of(sha1);
        let mut i: usize = self.entries.len();
        while i > 0
            invariant
                i <= self.entries@.len(),
                key@ == sha1@,
                position(self@, sha1@) < i,
                self@.len() == self.entries@.len(),
                forall|j: int| 0 <= j < self.entries@.len() ==> self@[j] == self.entries@[j]@,
            decreases i,
        {
            proof {
                lemma_position(self@, sha1@);
            }
            assert(self@[i - 1] == self.entries@[i - 1]@);
            if is_literal_string(&key, &self.entries[i - 1].sha1) {
                assert(self@[i - 1].0 == sha1@);
                assert(position(self@, sha1@) == i - 1);
                return Some(&self.entries[i - 1]);
            }
            i -= 1;
        }
        None
    }

    /// The index a `sha1<TAB>title<TAB>system` text describes.
    pub fn from_tsv(text: &str) -> (r: Index)
        ensures
            r@ == tsv_entries(lines(text@)),
            unique_keys(r@),
    {
        let ls = lines_chars(&chars_of(text));
        let ghost lv = lines(text@);
        let mut index = Index::new();
        let mut i: usize = 0;
        assert(lv.take(0) =~= Seq::<Seq<char>>::empty());
        while i < ls.len()
            invariant
                i <= ls@.len(),
                views(ls@) == lv,
                index@ == tsv_entries(lv.take(i as int)),
            decreases ls@.len() - i,
        {
            assert(lv[i as int] == ls@[i as int]@);
            assert(lv.take(i + 1).drop_last() =~= lv.take(i as int));
            match parse_tsv_line(&ls[i]) {
                None => {},
                Some(e) => {
                    index.insert(e);
                },
            }
            i += 1;
        }
        assert(lv.take(ls@.len() as int) =~= lv);
        proof {
            use_type_invariant(&index);
        }
        index
    }

    /// How many hashes the index knows.
    pub fn len(&self) -> (n: usize)
        ensures
            n == self@.len(),
    {
        self.entries.len()
    }

    pub fn is_empty(&self) -> (b: bool)
        ensures
            b == (self@.len() == 0),
    {
        self.entries.len() == 0
    }

    /// Every entry.
    pub fn entries(&self) -> (r: &[Entry])
        ensures
            r@.map_values(|e: Entry| e@) == self@,
    {
        self.entries.as_slice()
    }

    /// The system an entry's system column names, read case-blind and with
    /// the surrounding whitespace ignored.
    pub fn system_of(entry: &Entry) -> (r: Option<System>)
        ensures
            r == system_named(lower_seq(trim(entry.system@))),
    {
        let n = lower_chars(&trim_chars(&chars_of(entry.system.as_str())));
        if is_literal(&n, "nes") || is_literal(&n, "nintendo entertainment system") {
            Some(System::Nes)
        } else if is_literal(&n, "snes") || is_literal(&n, "super nintendo") || is_literal(
            &n,
            "super nintendo entertainment system",
        ) {
            Some(System::Snes)
        } else if is_literal(&n, "genesis") || is_literal(&n, "mega drive") || is_literal(
            &n,
            "sega genesis",
        ) {
            Some(System::Genesis)
        } else if is_literal(&n, "sega cd") || is_literal(&n, "mega cd") {
            Some(System::SegaCd)
        } else if is_literal(&n, "32x") || is_literal(&n, "sega 32x") {
            Some(System::Sega32x)
        } else if is_literal(&n, "n64") || is_literal(&n, "nintendo 64") {
            Some(System::N64)
        } else if is_literal(&n, "playstation") || is_literal(&n, "psx") || is_literal(&n, "ps1") {
            Some(System::Ps1)
        } else if is_literal(&n, "gb") || is_literal(&n, "game boy") {
            Some(System::Gb)
        } else if is_literal(&n, "gbc") || is_literal(&n, "game boy color") {
            Some(System::Gbc)
        } else if is_literal(&n, "gba") || is_literal(&n, "game boy advance") {
            Some(System::Gba)
        } else if is_literal(&n, "arcade") || is_literal(&n, "fbneo") {
            Some(System::Arcade)
        } else if is_literal(&n, "dos") || is_literal(&n, "ms-dos") {
            Some(System::Dos)
        } else if is_literal(&n, "ps2") || is_literal(&n, "playstation 2") {
            Some(System::Ps2)
        } else if is_literal(&n, "gamecube") || is_literal(&n, "game cube") || is_literal(&n, "ngc") {
            Some(System::Gamecube)
        } else if is_literal(&n, "wii") {
            Some(System::Wii)
        } else {
            None
        }
    }
}

/// The system a (trimmed, lower-cased) DAT system column names.
pub open spec fn system_named(n: Seq<char>) -> Option<System> {
    if n == "nes"@ || n == "nintendo entertainment system"@ {
        Some(System::Nes)
    } else if n == "snes"@ || n == "super nintendo"@ || n == "super nintendo entertainment system"@ {
        Some(System::Snes)
    } else if n == "genesis"@ || n == "mega drive"@ || n == "sega genesis"@ {
        Some(System::Genesis)
    } else if n == "sega cd"@ || n == "mega cd"@ {
        Some(System::SegaCd)
    } else if n == "32x"@ || n == "sega 32x"@ {
        Some(System::Sega32x)
    } else if n == "n64"@ || n == "nintendo 64"@ {
        Some(System::N64)
    } else if n == "playstation"@ || n == "psx"@ || n == "ps1"@ {
        Some(System::Ps1)
    } else if n == "gb"@ || n == "game boy"@ {
        Some(System::Gb)
    } else if n == "gbc"@ || n == "game boy color"@ {
        Some(System::Gbc)
    } else if n == "gba"@ || n == "game boy advance"@ {
        Some(System::Gba)
    } else if n == "arcade"@ || n == "fbneo"@ {
        Some(System::Arcade)
    } else if n == "dos"@ || n == "ms-dos"@ {
        Some(System::Dos)
    } else if n == "ps2"@ || n == "playstation 2"@ {
        Some(System::Ps2)
    } else if n == "gamecube"@ || n == "game cube"@ || n == "ngc"@ {
        Some(System::Gamecube)
    } else if n == "wii"@ {
        Some(System::Wii)
    } else {
        None
    }
}

/// The fixtures that ship with Den.
pub open spec fn bundled_entries() -> Seq<EntryView> {
    seq![
        ("0000000000000000000000000000000000000000"@, "Corpus Fixture (USA)"@, "NES"@),
        ("1111111111111111111111111111111111111111"@, "Corpus Fixture II (Europe)"@, "Genesis"@),
        ("2222222222222222222222222222222222222222"@, "Corpus Fixture III (Japan)"@, "GBA"@),
    ]
}

/// The index that ships with Den.
pub fn bundled() -> (r: Index)
    ensures
        r@ == bundled_entries(),
        unique_keys(r@),
{
    let mut index = Index::new();
    let fixtures: [(&str, &str, &str); 3] = [
        ("0000000000000000000000000000000000000000", "Corpus Fixture (USA)", "NES"),
        ("1111111111111111111111111111111111111111", "Corpus Fixture II (Europe)", "Genesis"),
        ("2222222222222222222222222222222222222222", "Corpus Fixture III (Japan)", "GBA"),
    ];
    let mut i: usize = 0;
    while i < 3
        invariant
            i <= 3,
            fixtures@ == seq![
                ("0000000000000000000000000000000000000000", "Corpus Fixture (USA)", "NES"),
                ("1111111111111111111111111111111111111111", "Corpus Fixture II (Europe)", "Genesis"),
                ("2222222222222222222222222222222222222222", "Corpus Fixture III (Japan)", "GBA"),
            ],
            index@ == bundled_entries().take(i as int),
        decreases 3 - i,
    {
        let (sha1, title, system) = fixtures[i];
        let ghost before = index@;
        proof {
            reveal_strlit("0000000000000000000000000000000000000000");
            reveal_strlit("1111111111111111111111111111111111111111");
            reveal_strlit("2222222222222222222222222222222222222222");
            lemma_position(before, sha1@);
            assert forall|j: int| 0 <= j < before.len() implies before[j].0 != sha1@ by {
                assert(before[j] == bundled_entries()[j]);
                assert(before[j].0[0] != sha1@[0]);
            }
        }
        index.insert(Entry { sha1: sha1.to_string(), title: title.to_string(), system: system.to_string() });
        assert(index@ =~= bundled_entries().take(i + 1));
        i += 1;
    }
    assert(bundled_entries().take(3) =~= bundled_entries());
    proof {
        use_type_invariant(&index);
    }
    index
}

/// The entry a TSV line `sha1<TAB>title<TAB>system` gives: nothing for a
/// blank line, a `#` comment, or a line whose hash is not 40 bytes or whose
/// title is empty.
pub open spec fn tsv_line(l: Seq<char>) -> Option<EntryView> {
    let t = trim(l);
    if t.len() == 0 || t[0] == '#' {
        None
    } else {
        let parts = split(t, '\t');
        let sha1 = trim(field(parts, 0));
        let title = trim(field(parts, 1));
        let system = trim(field(parts, 2));
        if byte_len(sha1) == 40 && title.len() > 0 {
            Some((sha1, title, system))
        } else {
            None
        }
    }
}

/// The index a run of TSV lines builds, later lines replacing earlier ones.
pub open spec fn tsv_entries(ls: Seq<Seq<char>>) -> Seq<EntryView>
    decreases ls.len(),
{
    if ls.len() == 0 {
        Seq::<EntryView>::empty()
    } else {
        let r = tsv_entries(ls.drop_last());
        match tsv_line(ls.last()) {
            None => r,
            Some(e) => insert_spec(r, e),
        }
    }
}

/// The entry one TSV line gives, if any.
pub fn parse_tsv_line(l: &[char]) -> (r: Option<Entry>)
    ensures
        match r {
            None => tsv_line(l@) is None,
            Some(e) => tsv_line(l@) == Some(e@),
        },
{
    let t = trim_chars(l);
    if t.len() == 0 || t[0] == '#' {
        return None;
    }
    let parts = split_chars(&t, '\t');
    let sha1 = field_of(&parts, 0);
    let title = field_of(&parts, 1);
    let system = field_of(&parts, 2);
    if byte_len_is(&sha1, 40) && title.len() > 0 {
        Some(
            Entry {
                sha1: string_from_chars(&sha1),
                title: string_from_chars(&title),
                system: string_from_chars(&system),
            },
        )
    } else {
        None
    }
}

/// Whether the characters `a` spell the string `s`.
pub fn is_literal_string(a: &[char], s: &String) -> (r: bool)
    ensures
        r == (a@ == s@),
{
    is_literal(a, s.as_str())
}

} // verus!
