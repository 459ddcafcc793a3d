//! A table of what is known about each peer, keyed by node key.

use vstd::prelude::*;

use crate::node_id::NodeKey;

verus! {

/// A table with at most one value for each node key.
pub struct PeerMap<V> {
    entries: Vec<(NodeKey, V)>,
}

/// Whether two node keys are the same.
pub fn same_key(a: &NodeKey, b: &NodeKey) -> (r: bool)
    ensures
        r == (a@ == b@),
        r == (a == b),
{
    let mut i: usize = 0;
    while i < 32
        invariant
            i <= 32,
            forall|j: int| 0 <= j < i ==> a@[j] == b@[j],
        decreases 32 - i,
    {
        if a[i] != b[i] {
            return false;
        }
        i += 1;
    }
    assert(a@ =~= b@);
    assert(*a =~= *b);
    true
}

/// `table` after the entries of a list were entered one by one: a later entry
/// for a key takes the place of an earlier one.
pub open spec fn entered<V>(table: Map<Seq<u8>, V>, entries: Seq<(NodeKey, V)>) -> Map<Seq<u8>, V>
    decreases entries.len(),
{
    if entries.len() == 0 {
        table
    } else {
        entered(table, entries.drop_last()).insert(entries.last().0@, entries.last().1)
    }
}

/// The table that a list of entries stands for.
pub open spec fn last_wins<V>(entries: Seq<(NodeKey, V)>) -> Map<Seq<u8>, V> {
    entered(Map::empty(), entries)
}

/// A key is in the table exactly where some entry has it.
pub proof fn lemma_last_wins_keys<V>(entries: Seq<(NodeKey, V)>, key: Seq<u8>)
    ensures
        last_wins(entries).dom().contains(key) <==> exists|i: int| 0 <= i < entries.len() && (#[trigger] entries[i]).0@ == key,
    decreases entries.len(),
{
    if entries.len() > 0 {
        let rest = entries.drop_last();
        let last = entries.len() - 1;
        lemma_last_wins_keys(rest, key);
        if entries[last].0@ != key {
            if last_wins(rest).dom().contains(key) {
                let i = choose|i: int| 0 <= i < rest.len() && (#[trigger] rest[i]).0@ == key;
                assert(entries[i].0@ == key);
            }
            if exists|i: int| 0 <= i < entries.len() && (#[trigger] entries[i]).0@ == key {
                let i = choose|i: int| 0 <= i < entries.len() && (#[trigger] entries[i]).0@ == key;
                assert(rest[i].0@ == key);
            }
        }
    }
}

/// The table holds the last entry for a key.
pub proof fn lemma_last_wins_value<V>(entries: Seq<(NodeKey, V)>, i: int)
    requires
        0 <= i < entries.len(),
        forall|j: int| i < j < entries.len() ==> (#[trigger] entries[j]).0@ != entries[i].0@,
    ensures
        last_wins(entries).dom().contains(entries[i].0@),
        last_wins(entries)[entries[i].0@] == entries[i].1,
    decreases entries.len(),
{
    let rest = entries.drop_last();
    let last = entries.len() - 1;
    if i < last {
        assert(rest[i] == entries[i]);
        assert forall|j: int| i < j < rest.len() implies (#[trigger] rest[j]).0@ != rest[i].0@ by {
            assert(rest[j] == entries[j]);
        }
        lemma_last_wins_value(rest, i);
        assert(entries[last].0@ != entries[i].0@);
    }
}

/// Entering a list into a table: a key has the value of the last entry for it,
/// and where there is none what it had before.
pub proof fn law_last_entry_wins<V>(table: Map<Seq<u8>, V>, entries: Seq<(NodeKey, V)>, key: Seq<u8>, i: int)
    requires
        0 <= i < entries.len() ==> entries[i].0@ == key,
        forall|j: int| 0 <= j < entries.len() && j > i ==> (#[trigger] entries[j]).0@ != key,
    ensures
        0 <= i < entries.len() ==> entered(table, entries).dom().contains(key) && entered(table, entries)[key] == entries[i].1,
        i < 0 ==> (entered(table, entries).dom().contains(key) <==> table.dom().contains(key)),
        i < 0 && table.dom().contains(key) ==> entered(table, entries)[key] == table[key],
    decreases entries.len(),
{
    if entries.len() > 0 {
        let rest = entries.drop_last();
        let last = entries.len() - 1;
        if i < last {
            assert(entries[last].0@ != key);
            assert forall|j: int| 0 <= j < rest.len() && j > i implies (#[trigger] rest[j]).0@ != key by {
                assert(rest[j] == entries[j]);
            }
            law_last_entry_wins(table, rest, key, i);
        }
    }
}

impl<V> View for PeerMap<V> {
    type V = Map<Seq<u8>, V>;

    closed spec fn view(&self) -> Map<Seq<u8>, V> {
        last_wins(self.entries@)
    }
}

impl<V> PeerMap<V> {
    /// No key is entered twice.
    pub closed spec fn wf(&self) -> bool {
        forall|i: int, j: int| 0 <= i < j < self.entries@.len() ==> self.entries@[i].0@ != self.entries@[j].0@
    }

    /// An empty table.
    pub fn new() -> (r: Self)
        ensures
            r.wf(),
            r@ == Map::<Seq<u8>, V>::empty(),
    {
        PeerMap { entries: Vec::new() }
    }

    /// Where the entry for `key` stands, if there is one.
    fn position(&self, key: &NodeKey) -> (r: Option<usize>)
        requires
            self.wf(),
        ensures
            r is Some <==> self@.dom().contains(key@),
            r matches Some(i) ==> i < self.entries@.len() && self.entries@[i as int].0@ == key@ && self@[key@]
                == self.entries@[i as int].1,
    {
        let mut i: usize = 0;
        while i < self.entries.len()
            invariant
                self.wf(),
                i <= self.entries@.len(),
                self@ == last_wins(self.entries@),
                forall|j: int| 0 <= j < i ==> (#[trigger] self.entries@[j]).0@ != key@,
            decreases self.entries@.len() - i,
        {
            if same_key(&self.entries[i].0, key) {
                proof {
                    lemma_last_wins_value(self.entries@, i as int);
                }
                return Some(i);
            }
            i += 1;
        }
        proof {
            lemma_last_wins_keys(self.entries@, key@);
        }
        None
    }

    /// What the table holds for `key`.
    pub fn get(&self, key: &NodeKey) -> (r: Option<&V>)
        requires
            self.wf(),
        ensures
            (match r {
                Some(v) => self@.dom().contains(key@) && *v == self@[key@],
                None => !self@.dom().contains(key@),
            }),
    {
        match self.position(key) {
            Some(i) => Some(&self.entries[i].1),
            None => None,
        }
    }

    /// Take the value for `key` out of the table.
    pub fn remove(&mut self, key: &NodeKey) -> (r: Option<V>)
        requires
            old(self).wf(),
        ensures
            final(self).wf(),
            final(self)@ == old(self)@.remove(key@),
            (match r {
                Some(v) => old(self)@.dom().contains(key@) && v == old(self)@[key@],
                None => !old(self)@.dom().contains(key@),
            }),
    {
        let ghost before = self.entries@;
        match self.position(key) {
            Some(i) => {
                let (_, value) = self.entries.remove(i);
                proof {
                    lemma_removed(before, i as int);
                    assert(self.entries@ =~= before.remove(i as int));
                }
                Some(value)
            },
            None => {
                assert(self@.remove(key@) =~= self@);
                None
            },
        }
    }

    /// Enter a value for `key`; it takes the place of an earlier one, which is
    /// handed back.
    pub fn insert(&mut self, key: NodeKey, value: V) -> (r: Option<V>)
        requires
            old(self).wf(),
        ensures
            final(self).wf(),
            final(self)@ == old(self)@.insert(key@, value),
            (match r {
                Some(v) => old(self)@.dom().contains(key@) && v == old(self)@[key@],
                None => !old(self)@.dom().contains(key@),
            }),
    {
        let earlier = self.remove(&key);
        let ghost rest = self.entries@;
        self.entries.push((key, value));
        proof {
            lemma_last_wins_keys(rest, key@);
            assert(self.entries@.drop_last() =~= rest);
            assert(self@ =~= old(self)@.insert(key@, value));
            assert forall|i: int, j: int| 0 <= i < j < self.entries@.len() implies self.entries@[i].0@ != self.entries@[j].0@ by {
                if j == rest.len() {
                    assert(rest[i].0@ != key@);
                }
            }
        }
        earlier
    }

    /// Enter every pair of a list, in its order.
    pub fn insert_all(&mut self, pairs: Vec<(NodeKey, V)>)
        requires
            old(self).wf(),
        ensures
            final(self).wf(),
            final(self)@ == entered(old(self)@, pairs@),
    {
        let ghost all = pairs@;
        let ghost start = self@;
        for pair in it: pairs
            invariant
                self.wf(),
                it.seq() == all,
                self@ == entered(start, all.take(it.index() as int)),
        {
            proof {
                assert(all.take(it.index() + 1).drop_last() =~= all.take(it.index() as int));
            }
            let (key, value) = pair;
            self.insert(key, value);
        }
        assert(all.take(all.len() as int) =~= all);
    }

    /// The table of a list of pairs, entered in its order.
    pub fn from_pairs(pairs: Vec<(NodeKey, V)>) -> (r: Self)
        ensures
            r.wf(),
            r@ == last_wins(pairs@),
    {
        let mut table = PeerMap::new();
        table.insert_all(pairs);
        table
    }

    /// The entries of the table, each key once.
    pub fn into_pairs(self) -> (r: Vec<(NodeKey, V)>)
        requires
            self.wf(),
        ensures
            last_wins(r@) == self@,
            forall|i: int, j: int| 0 <= i < j < r@.len() ==> r@[i].0@ != r@[j].0@,
    {
        self.entries
    }
}

/// Taking out the one entry for its key takes the key out of the table.
proof fn lemma_removed<V>(entries: Seq<(NodeKey, V)>, i: int)
    requires
        0 <= i < entries.len(),
        forall|a: int, b: int| 0 <= a < b < entries.len() ==> entries[a].0@ != entries[b].0@,
    ensures
        last_wins(entries.remove(i)) == last_wins(entries).remove(entries[i].0@),
    decreases entries.len(),
{
    let rest = entries.drop_last();
    let last = entries.len() - 1;
    let key = entries[i].0@;
    if i == last {
        assert(entries.remove(i) =~= rest);
        lemma_last_wins_keys(rest, key);
        assert forall|j: int| 0 <= j < rest.len() implies (#[trigger] rest[j]).0@ != key by {
            assert(rest[j] == entries[j]);
        }
        assert(last_wins(entries).remove(key) =~= last_wins(rest));
    } else {
        lemma_removed(rest, i);
        assert(entries.remove(i).drop_last() =~= rest.remove(i));
        assert(entries.remove(i).last() == entries.last());
        assert(entries[i].0@ != entries[last].0@);
        assert(last_wins(entries.remove(i)) =~= last_wins(entries).remove(key));
    }
}

} // verus!
