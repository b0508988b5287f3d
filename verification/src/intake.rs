//! The intake report: one word for every file that went in.

use vstd::prelude::*;
use crate::dat::Index;
use crate::text::chars_of;

verus! {

broadcast use vstd::string::group_string_axioms;

/// What happened to one input file.
#[derive(Debug)]
pub enum Outcome {
    Added { game: String },
    Duplicate { game: String },
    Repaired { game: String, note: String },
    Probable { game: String },
    Bios { name: String },
    Extra { note: String },
    Quarantined { reason: String },
    Unsupported { reason: String },
}

/// An outcome as text.
pub enum OutcomeView {
    Added(Seq<char>),
    Duplicate(Seq<char>),
    Repaired(Seq<char>, Seq<char>),
    Probable(Seq<char>),
    Bios(Seq<char>),
    Extra(Seq<char>),
    Quarantined(Seq<char>),
    Unsupported(Seq<char>),
}

impl View for Outcome {
    type V = OutcomeView;

    open spec fn view(&self) -> OutcomeView {
        match self {
            Outcome::Added { game } => OutcomeView::Added(game@),
            Outcome::Duplicate { game } => OutcomeView::Duplicate(game@),
            Outcome::Repaired { game, note } => OutcomeView::Repaired(game@, note@),
            Outcome::Probable { game } => OutcomeView::Probable(game@),
            Outcome::Bios { name } => OutcomeView::Bios(name@),
            Outcome::Extra { note } => OutcomeView::Extra(note@),
            Outcome::Quarantined { reason } => OutcomeView::Quarantined(reason@),
            Outcome::Unsupported { reason } => OutcomeView::Unsupported(reason@),
        }
    }
}

impl View for ReportEntry {
    type V = (Seq<char>, OutcomeView);

    open spec fn view(&self) -> (Seq<char>, OutcomeView) {
        (self.input@, self.outcome@)
    }
}

/// The word an outcome is reported with.
pub open spec fn word_of(o: Outcome) -> Seq<char> {
    match o {
        Outcome::Added { .. } => "added"@,
        Outcome::Duplicate { .. } => "duplicate"@,
        Outcome::Repaired { .. } => "repaired"@,
        Outcome::Probable { .. } => "probable"@,
        Outcome::Bios { .. } => "bios"@,
        Outcome::Extra { .. } => "extra"@,
        Outcome::Quarantined { .. } => "quarantined"@,
        Outcome::Unsupported { .. } => "unsupported"@,
    }
}

impl Outcome {
    pub fn word(&self) -> (r: &'static str)
        ensures
            r@ == word_of(*self),
    {
        match self {
            Outcome::Added { .. } => "added",
            Outcome::Duplicate { .. } => "duplicate",
            Outcome::Repaired { .. } => "repaired",
            Outcome::Probable { .. } => "probable",
            Outcome::Bios { .. } => "bios",
            Outcome::Extra { .. } => "extra",
            Outcome::Quarantined { .. } => "quarantined",
            Outcome::Unsupported { .. } => "unsupported",
        }
    }
}

/// One input file and its outcome.
#[derive(Debug)]
pub struct ReportEntry {
    pub input: String,
    pub outcome: Outcome,
}

/// The report card of one intake run.
#[derive(Debug)]
pub struct Report {
    pub started: i64,
    pub finished: i64,
    pub entries: Vec<ReportEntry>,
}

/// The eight words, in the order a tally lists them.
pub open spec fn tally_words() -> Seq<Seq<char>> {
    seq![
        "added"@,
        "bios"@,
        "duplicate"@,
        "extra"@,
        "probable"@,
        "quarantined"@,
        "repaired"@,
        "unsupported"@,
    ]
}

/// How many entries carry word `w`.
pub open spec fn count_word(es: Seq<ReportEntry>, w: Seq<char>) -> nat
    decreases es.len(),
{
    if es.len() == 0 {
        0
    } else {
        count_word(es.drop_last(), w) + if word_of(es.last().outcome) == w {
            1nat
        } else {
            0nat
        }
    }
}

/// The tally: each word with its count, alphabetically, words that never
/// came up left out.
pub open spec fn tally_spec(es: Seq<ReportEntry>) -> Seq<(Seq<char>, nat)> {
    tally_words().map_values(|w: Seq<char>| (w, count_word(es, w))).filter(
        |p: (Seq<char>, nat)| p.1 > 0,
    )
}

/// All eight counts together.
pub open spec fn total_count(es: Seq<ReportEntry>) -> nat {
    count_word(es, "added"@) + count_word(es, "bios"@) + count_word(es, "duplicate"@) + count_word(
        es,
        "extra"@,
    ) + count_word(es, "probable"@) + count_word(es, "quarantined"@) + count_word(
        es,
        "repaired"@,
    ) + count_word(es, "unsupported"@)
}

/// Every entry is counted under exactly one word: the tally adds up to the
/// number of entries.
pub proof fn lemma_every_entry_counted_once(es: Seq<ReportEntry>)
    ensures
        total_count(es) == es.len(),
    decreases es.len(),
{
    reveal_strlit("added");
    reveal_strlit("bios");
    reveal_strlit("duplicate");
    reveal_strlit("extra");
    reveal_strlit("probable");
    reveal_strlit("quarantined");
    reveal_strlit("repaired");
    reveal_strlit("unsupported");
    if es.len() > 0 {
        lemma_every_entry_counted_once(es.drop_last());
        assert("added"@[0] == 'a' && "added"@.len() == 5);
        assert("bios"@[0] == 'b' && "bios"@.len() == 4);
        assert("duplicate"@[0] == 'd' && "duplicate"@.len() == 9);
        assert("extra"@[0] == 'e' && "extra"@.len() == 5);
        assert("probable"@[0] == 'p' && "probable"@.len() == 8);
        assert("quarantined"@[0] == 'q' && "quarantined"@.len() == 11);
        assert("repaired"@[0] == 'r' && "repaired"@.len() == 8);
        assert("unsupported"@[0] == 'u' && "unsupported"@.len() == 11);
    }
}

impl Report {
    /// How many entries carry the word `word`.
    pub fn count(&self, word: &str) -> (n: usize)
        ensures
            n == count_word(self.entries@, word@),
    {
        let w = chars_of(word);
        let mut n: usize = 0;
        let mut i: usize = 0;
        assert(self.entries@.take(0) =~= Seq::<ReportEntry>::empty());
        while i < self.entries.len()
            invariant
                i <= self.entries@.len(),
                w@ == word@,
                n == count_word(self.entries@.take(i as int), word@),
                n <= i,
            decreases self.entries@.len() - i,
        {
            assert(self.entries@.take(i + 1).drop_last() =~= self.entries@.take(i as int));
            if crate::text::is_literal(&w, self.entries[i].outcome.word()) {
                n = n + 1;
            }
            i += 1;
        }
        assert(self.entries@.take(i as int) =~= self.entries@);
        n
    }

    /// Each word with how many entries carry it, alphabetically, without the
    /// words that never came up.
    pub fn tally(&self) -> (r: Vec<(&'static str, usize)>)
        ensures
            r@.map_values(|p: (&str, usize)| (p.0@, p.1 as nat)) == tally_spec(self.entries@),
    {
        let words: [&'static str; 8] = [
            "added",
            "bios",
            "duplicate",
            "extra",
            "probable",
            "quarantined",
            "repaired",
            "unsupported",
        ];
        assert(words@.map_values(|w: &str| w@) =~= tally_words());
        let ghost all = tally_words().map_values(|w: Seq<char>| (w, count_word(self.entries@, w)));
        let mut out: Vec<(&'static str, usize)> = Vec::new();
        let mut i: usize = 0;
        assert(all.take(0) =~= Seq::<(Seq<char>, nat)>::empty());
        while i < 8
            invariant
                i <= 8,
                words@.map_values(|w: &str| w@) == tally_words(),
                all == tally_words().map_values(|w: Seq<char>| (w, count_word(self.entries@, w))),
                out@.map_values(|p: (&str, usize)| (p.0@, p.1 as nat)) == all.take(i as int).filter(
                    |p: (Seq<char>, nat)| p.1 > 0,
                ),
            decreases 8 - i,
        {
            let w = words[i];
            assert(tally_words()[i as int] == w@);
            let n = self.count(w);
            assert(all[i as int] == (w@, n as nat));
            assert(all.take(i + 1).drop_last() =~= all.take(i as int));
            reveal_with_fuel(Seq::<_>::filter, 1);
            if n > 0 {
                out.push((w, n));
                assert(out@.map_values(|p: (&str, usize)| (p.0@, p.1 as nat)) =~= all.take(
                    i as int,
                ).filter(|p: (Seq<char>, nat)| p.1 > 0).push((w@, n as nat)));
            }
            i += 1;
        }
        assert(all.take(8) =~= all);
        out
    }
}

/// What an intake run is given besides the drop itself.
pub struct IntakeOptions<'a> {
    pub library: String,
    pub dat: &'a Index,
    pub password: Option<String>,
}

/// Why an intake run could not start.
#[derive(Debug)]
pub enum IntakeError {
    Io(String),
}

/// The sentence an intake error is shown as.
pub open spec fn intake_message(e: IntakeError) -> Seq<char> {
    match e {
        IntakeError::Io(m) => "io error: "@ + m@,
    }
}

impl IntakeError {
    /// The error as a sentence.
    pub fn message(&self) -> (r: String)
        ensures
            r@ == intake_message(*self),
    {
        match self {
            IntakeError::Io(m) => {
                let mut v = crate::text::chars_of("io error: ");
                crate::text::push_str(&mut v, m.as_str());
                crate::text::string_from_chars(&v)
            },
        }
    }
}

} // verus!
