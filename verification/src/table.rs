//! A small text-keyed table: later writes to a key replace earlier ones.

use vstd::prelude::*;
use crate::text::{chars_of, is_literal};

verus! {

pub type Row = (Seq<char>, Seq<char>);

pub open spec fn unique_rows(s: Seq<Row>) -> bool {
    forall|i: int, j: int| 0 <= i < j < s.len() ==> s[i].0 != s[j].0
}

/// The last position holding key `k`, or -1.
pub open spec fn row_position(s: Seq<Row>, k: Seq<char>) -> int
    decreases s.len(),
{
    if s.len() == 0 {
        -1
    } else if s.last().0 == k {
        s.len() - 1
    } else {
        row_position(s.drop_last(), k)
    }
}

/// The value stored under `k`.
pub open spec fn row_find(s: Seq<Row>, k: Seq<char>) -> Option<Seq<char>> {
    let p = row_position(s, k);
    if p < 0 {
        None
    } else {
        Some(s[p].1)
    }
}

/// A write: the row for `r.0` is replaced where it stands, or added last.
pub open spec fn row_insert(s: Seq<Row>, r: Row) -> Seq<Row> {
    let p = row_position(s, r.0);
    if p < 0 {
        s.push(r)
    } else {
        s.update(p, r)
    }
}

/// The table a run of writes builds, starting from `base`.
pub open spec fn rows_written(base: Seq<Row>, writes: Seq<Row>) -> Seq<Row>
    decreases writes.len(),
{
    if writes.len() == 0 {
        base
    } else {
        row_insert(rows_written(base, writes.drop_last()), writes.last())
    }
}

pub proof fn lemma_row_position(s: Seq<Row>, k: Seq<char>)
    ensures
        -1 <= row_position(s, k) < s.len(),
        row_position(s, k) >= 0 ==> s[row_position(s, k)].0 == k,
        forall|j: int| row_position(s, k) < j < s.len() ==> s[j].0 != k,
    decreases s.len(),
{
    if s.len() > 0 && s.last().0 != k {
        lemma_row_position(s.drop_last(), k);
        assert forall|j: int| row_position(s, k) < j < s.len() implies s[j].0 != k by {
            if j < s.len() - 1 {
                assert(s[j] == s.drop_last()[j]);
            }
        }
    }
}

/// A read after a write: the written value under its own key, and under
/// every other key what was there before.
pub proof fn lemma_row_insert_then_find(s: Seq<Row>, r: Row, k: Seq<char>)
    requires
        unique_rows(s),
    ensures
        unique_rows(row_insert(s, r)),
        row_find(row_insert(s, r), k) == if k == r.0 {
            Some(r.1)
        } else {
            row_find(s, k)
        },
{
    lemma_row_position(s, r.0);
    lemma_row_position(s, k);
    let s2 = row_insert(s, r);
    let p = row_position(s, r.0);
    if p < 0 {
        assert forall|j: int| 0 <= j < s.len() implies s[j].0 != r.0 by {}
        assert(s2.drop_last() =~= s);
        lemma_row_position(s2, k);
        if k != r.0 {
            assert(row_position(s2, k) == row_position(s, k));
        }
    } else {
        assert(unique_rows(s2));
        lemma_row_position(s2, k);
        if k == r.0 {
            lemma_row_position_unique(s2, k, p);
        } else {
            if row_position(s, k) >= 0 {
                lemma_row_position_unique(s2, k, row_position(s, k));
            } else {
                if row_position(s2, k) >= 0 {
                    assert(s[row_position(s2, k)].0 == k);
                }
            }
        }
    }
}

proof fn lemma_row_position_unique(s: Seq<Row>, k: Seq<char>, i: int)
    requires
        unique_rows(s),
        0 <= i < s.len(),
        s[i].0 == k,
    ensures
        row_position(s, k) == i,
{
    lemma_row_position(s, k);
}

/// Key/value rows with distinct keys.
pub struct Table {
    rows: Vec<(String, String)>,
}

impl View for Table {
    type V = Seq<Row>;

    closed spec fn view(&self) -> Seq<Row> {
        self.rows@.map_values(|r: (String, String)| (r.0@, r.1@))
    }
}

impl Table {
    #[verifier::type_invariant]
    closed spec fn inv(self) -> bool {
        unique_rows(self@)
    }

    pub fn new() -> (t: Table)
        ensures
            t@ == Seq::<Row>::empty(),
    {
        let t = Table { rows: Vec::new() };
        assert(t@ =~= Seq::<Row>::empty());
        t
    }

    pub fn insert(&mut self, key: String, value: String)
        ensures
            final(self)@ == row_insert(old(self)@, (key@, value@)),
            unique_rows(old(self)@),
            unique_rows(final(self)@),
    {
        proof {
            use_type_invariant(&*self);
        }
        let ghost v = self@;
        let ghost r: Row = (key@, value@);
        proof {
            lemma_row_insert_then_find(v, r, key@);
            lemma_row_position(v, key@);
        }
        let k = chars_of(key.as_str());
        let mut i: usize = self.rows.len();
        while i > 0
            invariant
                i <= self.rows@.len(),
                self@ == v,
                r == (key@, value@),
                old(self)@ == v,
                unique_rows(v),
                k@ == key@,
                row_position(v, key@) < i,
                -1 <= row_position(v, key@),
                row_position(v, key@) >= 0 ==> v[row_position(v, key@)].0 == key@,
            decreases i,
        {
            assert(v[i - 1] == (self.rows@[i - 1].0@, self.rows@[i - 1].1@));
            if is_literal(&k, self.rows[i - 1].0.as_str()) {
                proof {
                    lemma_row_position_unique(v, key@, i - 1);
                }
                let ghost old_rows = self.rows@;
                assert(v =~= old_rows.map_values(|x: (String, String)| (x.0@, x.1@)));
                let mut rows = Vec::new();
                std::mem::swap(&mut rows, &mut self.rows);
                assert(rows@ == old_rows);
                rows.set(i - 1, (key, value));
                assert(rows@ == old_rows.update(i - 1, (key, value)));
                assert(rows@[i - 1].0@ == r.0);
                assert(rows@[i - 1].1@ == r.1);
                assert(rows@.map_values(|x: (String, String)| (x.0@, x.1@)) =~= v.update(i - 1, r));
                self.rows = rows;
                return;
            }
            i -= 1;
        }
        let mut rows = Vec::new();
        std::mem::swap(&mut rows, &mut self.rows);
        rows.push((key, value));
        assert(rows@.map_values(|x: (String, String)| (x.0@, x.1@)) =~= v.push(r));
        self.rows = rows;
    }

    /// The value under `key`.
    pub fn get(&self, key: &[char]) -> (r: Option<&String>)
        ensures
            match r {
                None => row_find(self@, key@) is None,
                Some(v) => row_find(self@, key@) == Some(v@),
            },
    {
        proof {
            use_type_invariant(self);
            lemma_row_position(self@, key@);
        }
        let mut i: usize = self.rows.len();
        while i > 0
            invariant
                i <= self.rows@.len(),
                self@.len() == self.rows@.len(),
                forall|j: int| 0 <= j < self.rows@.len() ==> self@[j] == (self.rows@[j].0@, self.rows@[j].1@),
                row_position(self@, key@) < i,
                -1 <= row_position(self@, key@),
                row_position(self@, key@) >= 0 ==> self@[row_position(self@, key@)].0 == key@,
                forall|j: int| row_position(self@, key@) < j < self@.len() ==> self@[j].0 != key@,
            decreases i,
        {
            if is_literal(key, self.rows[i - 1].0.as_str()) {
                assert(self@[i - 1].0 == key@);
                assert(row_position(self@, key@) == i - 1);
                return Some(&self.rows[i - 1].1);
            }
            i -= 1;
        }
        None
    }
}

} // verus!
