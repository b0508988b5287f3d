//! A stable order on keys of a tier, a number and a text, and a sort that
//! keeps equal keys in the order they came.

use vstd::prelude::*;
use vstd::multiset::Multiset;

verus! {

/// Text ordered the way `str`'s `Ord` orders it: character by character,
/// a proper prefix first.
pub open spec fn text_lt(a: Seq<char>, b: Seq<char>) -> bool
    decreases a.len(),
{
    if a.len() == 0 {
        b.len() > 0
    } else if b.len() == 0 {
        false
    } else if a[0] < b[0] {
        true
    } else if a[0] == b[0] {
        text_lt(a.drop_first(), b.drop_first())
    } else {
        false
    }
}

/// A sort key: a tier first, then a number, then a text.
pub struct SortKey {
    pub tier: u8,
    pub num: u64,
    pub text: Vec<char>,
}

/// A sort key as values.
pub struct KeyView {
    pub tier: u8,
    pub num: u64,
    pub text: Seq<char>,
}

impl View for SortKey {
    type V = KeyView;

    open spec fn view(&self) -> KeyView {
        KeyView { tier: self.tier, num: self.num, text: self.text@ }
    }
}

/// Whether one key orders strictly before another: by tier, then number,
/// then text.
pub open spec fn key_lt(a: KeyView, b: KeyView) -> bool {
    a.tier < b.tier || (a.tier == b.tier && (a.num < b.num || (a.num == b.num && text_lt(a.text, b.text))))
}

fn text_less(a: &[char], b: &[char]) -> (r: bool)
    ensures
        r == text_lt(a@, b@),
{
    let mut i: usize = 0;
    assert(a@.skip(0) =~= a@);
    assert(b@.skip(0) =~= b@);
    while i < a.len() && i < b.len() && a[i] == b[i]
        invariant
            i <= a@.len(),
            i <= b@.len(),
            text_lt(a@, b@) == text_lt(a@.skip(i as int), b@.skip(i as int)),
        decreases a@.len() - i,
    {
        assert(a@.skip(i as int).drop_first() =~= a@.skip(i + 1));
        assert(b@.skip(i as int).drop_first() =~= b@.skip(i + 1));
        assert(a@.skip(i as int)[0] == a@[i as int]);
        assert(b@.skip(i as int)[0] == b@[i as int]);
        i += 1;
    }
    if i == a.len() {
        assert(a@.skip(i as int).len() == 0);
        i < b.len()
    } else if i == b.len() {
        false
    } else {
        assert(a@.skip(i as int)[0] == a@[i as int]);
        assert(b@.skip(i as int)[0] == b@[i as int]);
        a[i] < b[i]
    }
}

fn key_less(a: &SortKey, b: &SortKey) -> (r: bool)
    ensures
        r == key_lt(a@, b@),
{
    if a.tier != b.tier {
        return a.tier < b.tier;
    }
    if a.num != b.num {
        return a.num < b.num;
    }
    text_less(&a.text, &b.text)
}

/// Where an item goes among items already in order: after every item whose
/// key does not order after its own, so equal keys keep their arrival
/// order.
pub open spec fn ins(s: Seq<int>, x: int, keys: Seq<KeyView>) -> Seq<int>
    decreases s.len(),
{
    if s.len() == 0 {
        seq![x]
    } else if key_lt(keys[x], keys[s[0]]) {
        seq![x] + s
    } else {
        seq![s[0]] + ins(s.drop_first(), x, keys)
    }
}

/// The first `n` positions of `keys`, in stable key order.
pub open spec fn sorted_positions(n: nat, keys: Seq<KeyView>) -> Seq<int>
    decreases n,
{
    if n == 0 {
        Seq::<int>::empty()
    } else {
        ins(sorted_positions((n - 1) as nat, keys), n - 1, keys)
    }
}

proof fn lemma_ins_at(s: Seq<int>, x: int, keys: Seq<KeyView>, j: int)
    requires
        0 <= j <= s.len(),
        forall|k: int| 0 <= k < j ==> !key_lt(keys[x], #[trigger] keys[s[k]]),
        j < s.len() ==> key_lt(keys[x], keys[s[j]]),
    ensures
        ins(s, x, keys) == s.take(j).push(x) + s.skip(j),
    decreases s.len(),
{
    if s.len() == 0 {
        assert(s.take(j).push(x) + s.skip(j) =~= seq![x]);
    } else if j == 0 {
        assert(s.take(0).push(x) + s.skip(0) =~= seq![x] + s);
    } else {
        assert(!key_lt(keys[x], keys[s[0]]));
        let t = s.drop_first();
        assert forall|k: int| 0 <= k < j - 1 implies !key_lt(keys[x], #[trigger] keys[t[k]]) by {
            assert(t[k] == s[k + 1]);
        }
        if j - 1 < t.len() {
            assert(t[j - 1] == s[j]);
        }
        lemma_ins_at(t, x, keys, j - 1);
        assert(seq![s[0]] + (t.take(j - 1).push(x) + t.skip(j - 1)) =~= s.take(j).push(x) + s.skip(j));
    }
}

/// The positions of `keys` in stable order of the keys.
pub fn sort_positions(keys: &Vec<SortKey>) -> (r: Vec<usize>)
    ensures
        r@.map_values(|p: usize| p as int) == sorted_positions(keys@.len(), keys@.map_values(|k: SortKey| k@)),
        r@.len() == keys@.len(),
        forall|i: int| 0 <= i < r@.len() ==> #[trigger] r@[i] < keys@.len(),
{
    let ghost kv = keys@.map_values(|k: SortKey| k@);
    let mut out: Vec<usize> = Vec::new();
    let mut i: usize = 0;
    while i < keys.len()
        invariant
            i <= keys@.len(),
            kv == keys@.map_values(|k: SortKey| k@),
            out@.map_values(|p: usize| p as int) == sorted_positions(i as nat, kv),
            out@.len() == i,
            forall|m: int| 0 <= m < out@.len() ==> #[trigger] out@[m] < i,
        decreases keys@.len() - i,
    {
        let ghost s = out@.map_values(|p: usize| p as int);
        let mut j: usize = 0;
        while j < out.len() && !key_less(&keys[i], &keys[out[j]])
            invariant
                j <= out@.len(),
                i < keys@.len(),
                kv == keys@.map_values(|k: SortKey| k@),
                s == out@.map_values(|p: usize| p as int),
                forall|m: int| 0 <= m < out@.len() ==> #[trigger] out@[m] < i,
                forall|k: int| 0 <= k < j ==> !key_lt(kv[i as int], #[trigger] kv[s[k]]),
            decreases out@.len() - j,
        {
            assert(kv[s[j as int]] == keys@[out@[j as int] as int]@);
            j += 1;
        }
        proof {
            if j < out@.len() {
                assert(kv[s[j as int]] == keys@[out@[j as int] as int]@);
            }
            lemma_ins_at(s, i as int, kv, j as int);
        }
        let ghost before = out@;
        out.insert(j, i);
        assert(out@ == before.insert(j as int, i));
        assert(out@.map_values(|p: usize| p as int) =~= s.take(j as int).push(i as int) + s.skip(j as int));
        assert forall|m: int| 0 <= m < out@.len() implies #[trigger] out@[m] < i + 1 by {
            if m < j {
                assert(out@[m] == before[m]);
            } else if m > j {
                assert(out@[m] == before[m - 1]);
            }
        }
        i += 1;
    }
    out
}


/// Texts as sort keys that differ in their text alone.
pub open spec fn text_keys(s: Seq<Seq<char>>) -> Seq<KeyView> {
    s.map_values(|t: Seq<char>| KeyView { tier: 0u8, num: 0u64, text: t })
}

/// Texts in the order `str` sorts them, equal ones in the order they came.
pub open spec fn in_text_order(s: Seq<Seq<char>>) -> Seq<Seq<char>> {
    sorted_positions(s.len(), text_keys(s)).map_values(|p: int| s[p])
}

/// The views of a list of strings.
pub open spec fn text_views(v: Seq<String>) -> Seq<Seq<char>> {
    v.map_values(|t: String| t@)
}

/// A list of strings sorted the way `str` orders them.
pub fn sorted_texts(v: &Vec<String>) -> (r: Vec<String>)
    ensures
        text_views(r@) == in_text_order(text_views(v@)),
{
    let ghost tv = text_views(v@);
    let mut keys: Vec<SortKey> = Vec::new();
    let mut i: usize = 0;
    while i < v.len()
        invariant
            i <= v@.len(),
            tv == text_views(v@),
            keys@.len() == i,
            forall|k: int| 0 <= k < i ==> (#[trigger] keys@[k])@ == text_keys(tv)[k],
        decreases v@.len() - i,
    {
        keys.push(SortKey { tier: 0, num: 0, text: crate::text::chars_of(v[i].as_str()) });
        i += 1;
    }
    assert(keys@.map_values(|k: SortKey| k@) =~= text_keys(tv));
    let order = sort_positions(&keys);
    let ghost sp = sorted_positions(tv.len(), text_keys(tv));
    let mut out: Vec<String> = Vec::new();
    let mut j: usize = 0;
    while j < order.len()
        invariant
            j <= order@.len(),
            order@.len() == v@.len(),
            tv == text_views(v@),
            order@.map_values(|p: usize| p as int) == sp,
            forall|m: int| 0 <= m < order@.len() ==> #[trigger] order@[m] < v@.len(),
            text_views(out@) == sp.take(j as int).map_values(|p: int| tv[p]),
        decreases order@.len() - j,
    {
        let p = order[j];
        assert(sp[j as int] == p as int);
        let ghost before = out@;
        let t = v[p].clone();
        assert(t@ == tv[p as int]);
        out.push(t);
        assert(out@ == before.push(t));
        assert(sp.take(j + 1) =~= sp.take(j as int).push(p as int));
        assert(text_views(out@) =~= text_views(before).push(t@));
        assert(text_views(out@) =~= sp.take(j + 1).map_values(|q: int| tv[q]));
        j += 1;
    }
    assert(sp.take(order@.len() as int) =~= sp);
    out
}


proof fn lemma_ins_bag<A>(v: Seq<A>, s: Seq<int>, x: int, keys: Seq<KeyView>)
    ensures
        ins(s, x, keys).map_values(|p: int| v[p]).to_multiset() =~= s.map_values(|p: int| v[p]).to_multiset().insert(
            v[x],
        ),
    decreases s.len(),
{
    broadcast use vstd::seq_lib::group_to_multiset_ensures;
    broadcast use vstd::multiset::group_multiset_axioms;

    if s.len() == 0 {
        assert(ins(s, x, keys).map_values(|p: int| v[p]) =~= Seq::<A>::empty().push(v[x]));
        assert(s.map_values(|p: int| v[p]) =~= Seq::<A>::empty());
        assert(Seq::<A>::empty().to_multiset() =~= Multiset::<A>::empty());
    } else if key_lt(keys[x], keys[s[0]]) {
        let m = s.map_values(|p: int| v[p]);
        assert(ins(s, x, keys).map_values(|p: int| v[p]) =~= seq![v[x]] + m);
        vstd::seq_lib::lemma_multiset_commutative(seq![v[x]], m);
        assert(seq![v[x]] =~= Seq::<A>::empty().push(v[x]));
        assert(Seq::<A>::empty().to_multiset() =~= Multiset::<A>::empty());
    } else {
        let t = s.drop_first();
        lemma_ins_bag(v, t, x, keys);
        let mt = t.map_values(|p: int| v[p]);
        let mi = ins(t, x, keys).map_values(|p: int| v[p]);
        assert(ins(s, x, keys).map_values(|p: int| v[p]) =~= seq![v[s[0]]] + mi);
        assert(s.map_values(|p: int| v[p]) =~= seq![v[s[0]]] + mt);
        vstd::seq_lib::lemma_multiset_commutative(seq![v[s[0]]], mi);
        vstd::seq_lib::lemma_multiset_commutative(seq![v[s[0]]], mt);
    }
}

/// Sorting keeps every item: the items at the sorted positions of the
/// first `n` keys are the first `n` items, each as often as before.
pub proof fn lemma_sorted_pick_bag<A>(v: Seq<A>, keys: Seq<KeyView>, n: nat)
    requires
        n <= v.len(),
    ensures
        sorted_positions(n, keys).map_values(|p: int| v[p]).to_multiset() =~= v.take(n as int).to_multiset(),
    decreases n,
{
    broadcast use vstd::seq_lib::group_to_multiset_ensures;

    if n == 0 {
        assert(sorted_positions(0, keys).map_values(|p: int| v[p]) =~= Seq::<A>::empty());
        assert(v.take(0) =~= Seq::<A>::empty());
    } else {
        let m = (n - 1) as nat;
        lemma_sorted_pick_bag(v, keys, m);
        lemma_ins_bag(v, sorted_positions(m, keys), m as int, keys);
        assert(v.take(n as int) =~= v.take(m as int).push(v[m as int]));
    }
}

/// Sorting texts keeps every text, each as often as before.
pub proof fn lemma_in_text_order_bag(s: Seq<Seq<char>>)
    ensures
        in_text_order(s).to_multiset() =~= s.to_multiset(),
{
    lemma_sorted_pick_bag(s, text_keys(s), s.len());
    assert(s.take(s.len() as int) =~= s);
}

} // verus!
