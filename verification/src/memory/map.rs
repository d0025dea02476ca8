//! A map from memory keys to memories that keeps the order keys were first added.
use vstd::prelude::*;

verus! {

/// The map that a sequence of distinct-keyed entries stands for.
pub open spec fn map_of<V>(entries: Seq<(Seq<char>, V)>) -> Map<Seq<char>, V>
    decreases entries.len(),
{
    if entries.len() == 0 {
        Map::empty()
    } else {
        map_of(entries.drop_last()).insert(entries.last().0, entries.last().1)
    }
}

/// No key occurs twice.
pub open spec fn distinct_keys<V>(entries: Seq<(Seq<char>, V)>) -> bool {
    forall|i: int, j: int|
        0 <= i < entries.len() && 0 <= j < entries.len() && i != j ==> #[trigger] entries[i].0
            != #[trigger] entries[j].0
}

/// The keys that occur in `entries`.
pub open spec fn has_key<V>(entries: Seq<(Seq<char>, V)>, k: Seq<char>) -> bool {
    exists|i: int| 0 <= i < entries.len() && #[trigger] entries[i].0 == k
}

/// A map keyed by strings, whose entries keep the order in which their keys
/// were first inserted.
pub struct MemoryMap<V> {
    entries: Vec<(String, V)>,
}

impl<V> MemoryMap<V> {
    /// The entries in order, keys taken by their view.
    pub closed spec fn entry_seq(&self) -> Seq<(Seq<char>, V)> {
        self.entries@.map_values(|e: (String, V)| (e.0@, e.1))
    }

    pub closed spec fn wf(&self) -> bool {
        distinct_keys(self.entry_seq())
    }

    pub open spec fn view(&self) -> Map<Seq<char>, V> {
        map_of(self.entry_seq())
    }

    pub fn new() -> (m: Self)
        ensures
            m.wf(),
            m.entry_seq() == Seq::<(Seq<char>, V)>::empty(),
            m.view() == Map::<Seq<char>, V>::empty(),
    {
        let m = MemoryMap { entries: Vec::new() };
        proof {
            assert(m.entry_seq() =~= Seq::<(Seq<char>, V)>::empty());
        }
        m
    }

    pub fn len(&self) -> (n: usize)
        requires
            self.wf(),
        ensures
            n == self.entry_seq().len(),
            n == self.view().dom().len(),
    {
        proof {
            lemma_map_of_len(self.entry_seq());
        }
        self.entries.len()
    }

    pub fn is_empty(&self) -> (b: bool)
        requires
            self.wf(),
        ensures
            b == (self.entry_seq().len() == 0),
            b == (self.view() == Map::<Seq<char>, V>::empty()),
    {
        proof {
            lemma_map_of_len(self.entry_seq());
            if self.entry_seq().len() > 0 {
                lemma_map_of_has_key(self.entry_seq(), self.entry_seq()[0].0);
                assert(has_key(self.entry_seq(), self.entry_seq()[0].0));
                assert(!Map::<Seq<char>, V>::empty().contains_key(self.entry_seq()[0].0));
            } else {
                assert(self.view() =~= Map::<Seq<char>, V>::empty());
            }
        }
        self.entries.len() == 0
    }

    /// The entries in order.
    pub fn entries(&self) -> (r: &Vec<(String, V)>)
        ensures
            r@.map_values(|e: (String, V)| (e.0@, e.1)) == self.entry_seq(),
    {
        &self.entries
    }

    fn find(&self, key: &str) -> (r: Option<usize>)
        requires
            self.wf(),
        ensures
            match r {
                Some(i) => i < self.entry_seq().len() && self.entry_seq()[i as int].0 == key@,
                None => !has_key(self.entry_seq(), key@),
            },
    {
        let mut i: usize = 0;
        while i < self.entries.len()
            invariant
                i <= self.entries@.len(),
                self.entry_seq().len() == self.entries@.len(),
                forall|j: int| 0 <= j < i ==> #[trigger] self.entry_seq()[j].0 != key@,
            decreases self.entries@.len() - i,
        {
            let k = self.entries[i].0.as_str();
            if str_eq(k, key) {
                return Some(i);
            }
            i += 1;
        }
        None
    }

    /// The value under `key`.
    pub fn get(&self, key: &str) -> (r: Option<&V>)
        requires
            self.wf(),
        ensures
            match r {
                Some(v) => self.view().contains_key(key@) && *v == self.view()[key@],
                None => !self.view().contains_key(key@),
            },
    {
        proof {
            lemma_map_of_has_key(self.entry_seq(), key@);
        }
        match self.find(key) {
            Some(i) => {
                proof {
                    lemma_map_of_value(self.entry_seq(), i as int);
                }
                Some(&self.entries[i].1)
            },
            None => None,
        }
    }

    /// Sets `key` to `value`: in place when the key is present, at the end
    /// otherwise.
    pub fn insert(&mut self, key: String, value: V)
        requires
            old(self).wf(),
        ensures
            final(self).wf(),
            final(self).view() == old(self).view().insert(key@, value),
            has_key(old(self).entry_seq(), key@) ==> exists|i: int|
                0 <= i < old(self).entry_seq().len() && #[trigger] old(self).entry_seq()[i].0 == key@
                    && final(self).entry_seq() == old(self).entry_seq().update(i, (key@, value)),
            !has_key(old(self).entry_seq(), key@) ==> final(self).entry_seq() == old(
                self,
            ).entry_seq().push((key@, value)),
    {
        let ghost old_seq = self.entry_seq();
        match self.find(key.as_str()) {
            Some(i) => {
                let ghost kv = key@;
                let ghost vv = value;
                self.entries.set(i, (key, value));
                proof {
                    assert(self.entry_seq() =~= old_seq.update(i as int, (kv, vv)));
                    lemma_map_of_update(old_seq, i as int, vv);
                    assert(distinct_keys(self.entry_seq())) by {
                        assert forall|a: int, b: int|
                            0 <= a < self.entry_seq().len() && 0 <= b < self.entry_seq().len()
                                && a != b implies #[trigger] self.entry_seq()[a].0
                            != #[trigger] self.entry_seq()[b].0 by {
                            assert(old_seq[a].0 == self.entry_seq()[a].0);
                            assert(old_seq[b].0 == self.entry_seq()[b].0);
                        }
                    }
                }
            },
            None => {
                let ghost kv = key@;
                let ghost vv = value;
                self.entries.push((key, value));
                proof {
                    assert(self.entry_seq() =~= old_seq.push((kv, vv)));
                    assert(self.entry_seq().drop_last() =~= old_seq);
                    assert(distinct_keys(self.entry_seq())) by {
                        assert forall|a: int, b: int|
                            0 <= a < self.entry_seq().len() && 0 <= b < self.entry_seq().len()
                                && a != b implies #[trigger] self.entry_seq()[a].0
                            != #[trigger] self.entry_seq()[b].0 by {
                            if a < old_seq.len() && b < old_seq.len() {
                                assert(old_seq[a].0 == self.entry_seq()[a].0);
                                assert(old_seq[b].0 == self.entry_seq()[b].0);
                            } else if a < old_seq.len() {
                                assert(old_seq[a].0 == self.entry_seq()[a].0);
                            } else {
                                assert(old_seq[b].0 == self.entry_seq()[b].0);
                            }
                        }
                    }
                }
            },
        }
    }

    /// Removes `key`, handing back its value when it was present.
    pub fn remove(&mut self, key: &str) -> (r: Option<V>)
        requires
            old(self).wf(),
        ensures
            final(self).wf(),
            final(self).view() == old(self).view().remove(key@),
            has_key(old(self).entry_seq(), key@) ==> exists|i: int|
                0 <= i < old(self).entry_seq().len() && #[trigger] old(self).entry_seq()[i].0 == key@
                    && final(self).entry_seq() == old(self).entry_seq().remove(i),
            !has_key(old(self).entry_seq(), key@) ==> final(self).entry_seq() == old(self).entry_seq(),
            match r {
                Some(v) => old(self).view().contains_key(key@) && v == old(self).view()[key@],
                None => !old(self).view().contains_key(key@),
            },
    {
        let ghost old_seq = self.entry_seq();
        proof {
            lemma_map_of_has_key(old_seq, key@);
        }
        match self.find(key) {
            Some(i) => {
                proof {
                    lemma_map_of_value(old_seq, i as int);
                }
                let (_, v) = self.entries.remove(i);
                proof {
                    assert(self.entry_seq() =~= old_seq.remove(i as int));
                    lemma_map_of_remove(old_seq, i as int);
                    assert(distinct_keys(self.entry_seq())) by {
                        assert forall|a: int, b: int|
                            0 <= a < self.entry_seq().len() && 0 <= b < self.entry_seq().len()
                                && a != b implies #[trigger] self.entry_seq()[a].0
                            != #[trigger] self.entry_seq()[b].0 by {
                            let a0 = if a < i { a } else { a + 1 };
                            let b0 = if b < i { b } else { b + 1 };
                            assert(old_seq[a0].0 == self.entry_seq()[a].0);
                            assert(old_seq[b0].0 == self.entry_seq()[b].0);
                        }
                    }
                }
                Some(v)
            },
            None => {
                proof {
                    assert(map_of(old_seq) =~= map_of(old_seq).remove(key@));
                }
                None
            },
        }
    }

    /// A map of `pairs`, inserted in order: a later pair for a key wins.
    pub fn from_pairs(pairs: Vec<(String, V)>) -> (m: Self)
        ensures
            m.wf(),
            m.view() == insert_all(
                Map::<Seq<char>, V>::empty(),
                pairs@.map_values(|e: (String, V)| (e.0@, e.1)),
            ),
            forall|i: int| 0 <= i < pairs@.len() ==> m.view().contains_key(#[trigger] pairs@[i].0@),
            forall|k: Seq<char>| #[trigger]
                m.view().contains_key(k) ==> exists|i: int| 0 <= i < pairs@.len() && pairs@[i].0@ == k,
            forall|i: int|
                0 <= i < pairs@.len() && (forall|j: int| i < j < pairs@.len() ==> pairs@[j].0@ != pairs@[i].0@)
                    ==> m.view()[#[trigger] pairs@[i].0@] == pairs@[i].1,
    {
        let mut m = MemoryMap::new();
        let mut rest = pairs;
        let ghost all = pairs@.map_values(|e: (String, V)| (e.0@, e.1));
        let ghost n = all.len();
        let mut taken: usize = 0;
        let total = rest.len();
        proof {
            assert(all.take(0) =~= Seq::<(Seq<char>, V)>::empty());
        }
        while rest.len() > 0
            invariant
                m.wf(),
                taken + rest@.len() == n,
                n == all.len(),
                n == total,
                all == pairs@.map_values(|e: (String, V)| (e.0@, e.1)),
                rest@ == pairs@.skip(taken as int),
                m.view() == insert_all(Map::<Seq<char>, V>::empty(), all.take(taken as int)),
            decreases rest@.len(),
        {
            let (k, v) = rest.remove(0);
            proof {
                assert(pairs@[taken as int] == (k, v));
                assert(all[taken as int] == (k@, v));
                assert(all.take(taken + 1) =~= all.take(taken as int).push(all[taken as int]));
                assert(all.take(taken + 1).drop_last() =~= all.take(taken as int));
                assert(rest@ =~= pairs@.skip(taken + 1));
            }
            m.insert(k, v);
            taken += 1;
        }
        proof {
            assert(all.take(n as int) =~= all);
            lemma_insert_all_pairs(all);
            assert forall|i: int| 0 <= i < pairs@.len() implies m.view().contains_key(
                #[trigger] pairs@[i].0@,
            ) by {
                assert(all[i].0 == pairs@[i].0@);
            }
            assert forall|k: Seq<char>| #[trigger] m.view().contains_key(k) implies exists|i: int|
                0 <= i < pairs@.len() && pairs@[i].0@ == k by {
                let i = choose|i: int| 0 <= i < all.len() && all[i].0 == k;
                assert(all[i].0 == pairs@[i].0@);
            }
            assert forall|i: int|
                0 <= i < pairs@.len() && (forall|j: int| i < j < pairs@.len() ==> pairs@[j].0@ != pairs@[i].0@)
                implies m.view()[#[trigger] pairs@[i].0@] == pairs@[i].1 by {
                assert(all[i] == (pairs@[i].0@, pairs@[i].1));
                assert forall|j: int| i < j < all.len() implies all[j].0 != all[i].0 by {
                    assert(all[j].0 == pairs@[j].0@);
                }
            }
        }
        m
    }
}

/// `m` with each pair inserted in order.
pub open spec fn insert_all<V>(m: Map<Seq<char>, V>, pairs: Seq<(Seq<char>, V)>) -> Map<Seq<char>, V>
    decreases pairs.len(),
{
    if pairs.len() == 0 {
        m
    } else {
        insert_all(m, pairs.drop_last()).insert(pairs.last().0, pairs.last().1)
    }
}

/// Every key among the pairs is in the map inserted from them, and no other;
/// each holds the value of its last pair.
pub proof fn lemma_insert_all_pairs<V>(pairs: Seq<(Seq<char>, V)>)
    ensures
        forall|k: Seq<char>|
            #[trigger] insert_all(Map::<Seq<char>, V>::empty(), pairs).contains_key(k) <==> exists|i: int|
                0 <= i < pairs.len() && pairs[i].0 == k,
        forall|i: int|
            0 <= i < pairs.len() && (forall|j: int| i < j < pairs.len() ==> pairs[j].0 != pairs[i].0)
                ==> insert_all(Map::<Seq<char>, V>::empty(), pairs)[#[trigger] pairs[i].0] == pairs[i].1,
    decreases pairs.len(),
{
    if pairs.len() > 0 {
        let rest = pairs.drop_last();
        lemma_insert_all_pairs(rest);
        let last = pairs.len() - 1;
        assert forall|k: Seq<char>|
            #[trigger] insert_all(Map::<Seq<char>, V>::empty(), pairs).contains_key(k) <==> exists|i: int|
                0 <= i < pairs.len() && pairs[i].0 == k by {
            if insert_all(Map::<Seq<char>, V>::empty(), pairs).contains_key(k) {
                if k == pairs[last].0 {
                } else {
                    assert(insert_all(Map::<Seq<char>, V>::empty(), rest).contains_key(k));
                    let i = choose|i: int| 0 <= i < rest.len() && rest[i].0 == k;
                    assert(pairs[i] == rest[i]);
                }
            }
            if exists|i: int| 0 <= i < pairs.len() && pairs[i].0 == k {
                let i = choose|i: int| 0 <= i < pairs.len() && pairs[i].0 == k;
                if i < last {
                    assert(rest[i] == pairs[i]);
                    assert(insert_all(Map::<Seq<char>, V>::empty(), rest).contains_key(k));
                }
            }
        }
        assert forall|i: int|
            0 <= i < pairs.len() && (forall|j: int| i < j < pairs.len() ==> pairs[j].0 != pairs[i].0)
                implies insert_all(Map::<Seq<char>, V>::empty(), pairs)[#[trigger] pairs[i].0]
            == pairs[i].1 by {
            if i < last {
                assert(rest[i] == pairs[i]);
                assert forall|j: int| i < j < rest.len() implies rest[j].0 != rest[i].0 by {
                    assert(rest[j] == pairs[j]);
                }
                assert(pairs[last].0 != pairs[i].0);
            }
        }
    }
}

/// String equality by contents.
fn str_eq(a: &str, b: &str) -> (r: bool)
    ensures
        r == (a@ == b@),
{
    let sa = a.to_owned();
    let sb = b.to_owned();
    sa == sb
}

proof fn lemma_map_of_has_key<V>(entries: Seq<(Seq<char>, V)>, k: Seq<char>)
    ensures
        map_of(entries).contains_key(k) == has_key(entries, k),
    decreases entries.len(),
{
    if entries.len() > 0 {
        let rest = entries.drop_last();
        lemma_map_of_has_key(rest, k);
        if has_key(rest, k) {
            let i = choose|i: int| 0 <= i < rest.len() && #[trigger] rest[i].0 == k;
            assert(entries[i].0 == k);
        }
        if has_key(entries, k) && entries.last().0 != k {
            let i = choose|i: int| 0 <= i < entries.len() && #[trigger] entries[i].0 == k;
            assert(i < rest.len());
            assert(rest[i].0 == k);
        }
        if entries.last().0 == k {
            assert(entries[entries.len() - 1].0 == k);
        }
    }
}

proof fn lemma_map_of_value<V>(entries: Seq<(Seq<char>, V)>, i: int)
    requires
        distinct_keys(entries),
        0 <= i < entries.len(),
    ensures
        map_of(entries).contains_key(entries[i].0),
        map_of(entries)[entries[i].0] == entries[i].1,
    decreases entries.len(),
{
    let rest = entries.drop_last();
    if i < entries.len() - 1 {
        assert(distinct_keys(rest)) by {
            assert forall|a: int, b: int|
                0 <= a < rest.len() && 0 <= b < rest.len() && a != b implies #[trigger] rest[a].0
                != #[trigger] rest[b].0 by {
                assert(rest[a] == entries[a] && rest[b] == entries[b]);
            }
        }
        assert(rest[i] == entries[i]);
        lemma_map_of_value(rest, i);
        assert(entries[entries.len() - 1].0 != entries[i].0);
    }
}

proof fn lemma_distinct_rest<V>(entries: Seq<(Seq<char>, V)>)
    requires
        distinct_keys(entries),
        entries.len() > 0,
    ensures
        distinct_keys(entries.drop_last()),
        !has_key(entries.drop_last(), entries.last().0),
{
    let rest = entries.drop_last();
    assert forall|a: int, b: int|
        0 <= a < rest.len() && 0 <= b < rest.len() && a != b implies #[trigger] rest[a].0
        != #[trigger] rest[b].0 by {
        assert(rest[a] == entries[a] && rest[b] == entries[b]);
    }
    if has_key(rest, entries.last().0) {
        let i = choose|i: int| 0 <= i < rest.len() && #[trigger] rest[i].0 == entries.last().0;
        assert(entries[i].0 == entries[entries.len() - 1].0);
    }
}

proof fn lemma_map_of_update<V>(entries: Seq<(Seq<char>, V)>, i: int, v: V)
    requires
        distinct_keys(entries),
        0 <= i < entries.len(),
    ensures
        map_of(entries.update(i, (entries[i].0, v))) == map_of(entries).insert(entries[i].0, v),
    decreases entries.len(),
{
    let k = entries[i].0;
    let upd = entries.update(i, (k, v));
    let rest = entries.drop_last();
    lemma_distinct_rest(entries);
    if i == entries.len() - 1 {
        assert(upd.drop_last() =~= rest);
        assert(map_of(upd) =~= map_of(entries).insert(k, v));
    } else {
        assert(upd.drop_last() =~= rest.update(i, (k, v)));
        assert(rest[i] == entries[i]);
        lemma_map_of_update(rest, i, v);
        assert(entries.last().0 != k) by {
            assert(entries[entries.len() - 1].0 != entries[i].0);
        }
        assert(upd.last() == entries.last());
        assert(map_of(upd) =~= map_of(entries).insert(k, v));
    }
}

proof fn lemma_map_of_remove<V>(entries: Seq<(Seq<char>, V)>, i: int)
    requires
        distinct_keys(entries),
        0 <= i < entries.len(),
    ensures
        map_of(entries.remove(i)) == map_of(entries).remove(entries[i].0),
    decreases entries.len(),
{
    let k = entries[i].0;
    let rest = entries.drop_last();
    lemma_distinct_rest(entries);
    lemma_map_of_has_key(rest, entries.last().0);
    if i == entries.len() - 1 {
        assert(entries.remove(i) =~= rest);
        assert(map_of(rest) =~= map_of(entries).remove(k));
    } else {
        assert(rest[i] == entries[i]);
        lemma_map_of_remove(rest, i);
        let rem = entries.remove(i);
        assert(rem.drop_last() =~= rest.remove(i));
        assert(rem.last() == entries.last());
        assert(entries.last().0 != k) by {
            assert(entries[entries.len() - 1].0 != entries[i].0);
        }
        assert(map_of(rem) =~= map_of(entries).remove(k));
    }
}

proof fn lemma_map_of_len<V>(entries: Seq<(Seq<char>, V)>)
    requires
        distinct_keys(entries),
    ensures
        map_of(entries).dom().finite(),
        map_of(entries).dom().len() == entries.len(),
    decreases entries.len(),
{
    if entries.len() > 0 {
        let rest = entries.drop_last();
        lemma_distinct_rest(entries);
        lemma_map_of_len(rest);
        lemma_map_of_has_key(rest, entries.last().0);
    }
}

/// What is remembered is recalled: after setting `k` to `v`, the map holds `v`
/// under `k`, and every other key keeps whatever it held.
pub proof fn lemma_recall_after_insert<V>(m: Map<Seq<char>, V>, k: Seq<char>, v: V, other: Seq<char>)
    ensures
        m.insert(k, v).contains_key(k),
        m.insert(k, v)[k] == v,
        other != k ==> m.insert(k, v).contains_key(other) == m.contains_key(other),
        other != k && m.contains_key(other) ==> m.insert(k, v)[other] == m[other],
{
}

/// Setting a key twice keeps only the later value.
pub proof fn lemma_insert_overwrites<V>(m: Map<Seq<char>, V>, k: Seq<char>, v1: V, v2: V)
    ensures
        m.insert(k, v1).insert(k, v2) == m.insert(k, v2),
{
    assert(m.insert(k, v1).insert(k, v2) =~= m.insert(k, v2));
}

/// A new key adds one entry; an existing key adds none.
pub proof fn lemma_insert_len<V>(m: Map<Seq<char>, V>, k: Seq<char>, v: V)
    requires
        m.dom().finite(),
    ensures
        !m.contains_key(k) ==> m.insert(k, v).dom().len() == m.dom().len() + 1,
        m.contains_key(k) ==> m.insert(k, v).dom().len() == m.dom().len(),
{
    if m.contains_key(k) {
        assert(m.insert(k, v).dom() =~= m.dom());
    }
}

/// What is forgotten is gone, and only that: every other key keeps whatever it
/// held.
pub proof fn lemma_forget_only_key<V>(m: Map<Seq<char>, V>, k: Seq<char>, other: Seq<char>)
    ensures
        !m.remove(k).contains_key(k),
        other != k ==> m.remove(k).contains_key(other) == m.contains_key(other),
        other != k && m.contains_key(other) ==> m.remove(k)[other] == m[other],
{
}

/// Forgetting a key that was just remembered leaves the map as if it had
/// only been forgotten; for a key that was new, as it was before.
pub proof fn lemma_forget_undoes_remember<V>(m: Map<Seq<char>, V>, k: Seq<char>, v: V)
    ensures
        m.insert(k, v).remove(k) == m.remove(k),
        !m.contains_key(k) ==> m.insert(k, v).remove(k) == m,
{
    assert(m.insert(k, v).remove(k) =~= m.remove(k));
    if !m.contains_key(k) {
        assert(m.remove(k) =~= m);
    }
}

/// The map holds exactly its entries: each entry's key with that entry's
/// value, and no other key.
pub proof fn lemma_view_holds_entries<V>(m: &MemoryMap<V>)
    requires
        m.wf(),
    ensures
        forall|i: int|
            0 <= i < m.entry_seq().len() ==> m.view().contains_key(#[trigger] m.entry_seq()[i].0)
                && m.view()[m.entry_seq()[i].0] == m.entry_seq()[i].1,
        forall|k: Seq<char>| #[trigger]
            m.view().contains_key(k) ==> exists|i: int|
                0 <= i < m.entry_seq().len() && m.entry_seq()[i].0 == k,
{
    assert forall|i: int| 0 <= i < m.entry_seq().len() implies m.view().contains_key(
        #[trigger] m.entry_seq()[i].0,
    ) && m.view()[m.entry_seq()[i].0] == m.entry_seq()[i].1 by {
        lemma_map_of_value(m.entry_seq(), i);
    }
    assert forall|k: Seq<char>| #[trigger] m.view().contains_key(k) implies exists|i: int|
        0 <= i < m.entry_seq().len() && m.entry_seq()[i].0 == k by {
        lemma_map_of_has_key(m.entry_seq(), k);
    }
}

} // verus!
