//! A small table from numbers to values.

use vstd::prelude::*;

verus! {

/// Values by number; a number occurs once. The tables are small, and their entries are
/// walked, taken out one by one and sorted out, so they stand in a list, not in a
/// `HashMap`, whose entries could only be looked up.
#[derive(Debug)]
pub struct IdTable<V> {
    entries: Vec<(u32, V)>,
}

/// Whether some entry has a number.
pub open spec fn has_id<V>(entries: Seq<(u32, V)>, id: u32) -> bool {
    exists|i: int| 0 <= i < entries.len() && (#[trigger] entries[i]).0 == id
}

/// The place of the entry with a number.
pub open spec fn place_of<V>(entries: Seq<(u32, V)>, id: u32) -> int {
    choose|i: int| 0 <= i < entries.len() && (#[trigger] entries[i]).0 == id
}

/// The table that entries make.
pub open spec fn table_of<V>(entries: Seq<(u32, V)>) -> Map<u32, V> {
    Map::new(|id: u32| has_id(entries, id), |id: u32| entries[place_of(entries, id)].1)
}

/// Whether no number occurs twice.
pub open spec fn distinct<V>(entries: Seq<(u32, V)>) -> bool {
    forall|i: int, j: int|
        0 <= i < j < entries.len() ==> (#[trigger] entries[i]).0 != (#[trigger] entries[j]).0
}

impl<V> View for IdTable<V> {
    type V = Map<u32, V>;

    closed spec fn view(&self) -> Map<u32, V> {
        table_of(self.entries@)
    }
}

proof fn lemma_entry<V>(entries: Seq<(u32, V)>, i: int)
    requires
        distinct(entries),
        0 <= i < entries.len(),
    ensures
        table_of(entries).dom().contains(entries[i].0),
        table_of(entries)[entries[i].0] == entries[i].1,
{
    let id = entries[i].0;
    assert(has_id(entries, id));
    let j = place_of(entries, id);
    assert(0 <= j < entries.len() && entries[j].0 == id);
    if i < j {
        assert(entries[i].0 != entries[j].0);
    } else if j < i {
        assert(entries[j].0 != entries[i].0);
    }
}

proof fn lemma_removed<V>(entries: Seq<(u32, V)>, i: int)
    requires
        distinct(entries),
        0 <= i < entries.len(),
    ensures
        distinct(entries.remove(i)),
        table_of(entries.remove(i)) == table_of(entries).remove(entries[i].0),
{
    let after = entries.remove(i);
    let id = entries[i].0;
    assert forall|a: int, b: int| 0 <= a < b < after.len() implies (#[trigger] after[a]).0 != (
    #[trigger] after[b]).0 by {
        let x = if a < i { a } else { a + 1 };
        let y = if b < i { b } else { b + 1 };
        assert(after[a] == entries[x] && after[b] == entries[y]);
    }
    assert forall|other: u32| has_id(after, other) == (has_id(entries, other) && other != id) by {
        if has_id(after, other) {
            let k = place_of(after, other);
            let x = if k < i { k } else { k + 1 };
            assert(after[k] == entries[x]);
            if other == id {
                if x < i {
                    assert(entries[x].0 != entries[i].0);
                } else {
                    assert(entries[i].0 != entries[x].0);
                }
            }
        }
        if has_id(entries, other) && other != id {
            let k = place_of(entries, other);
            let x = if k < i { k } else { k - 1 };
            assert(after[x] == entries[k]);
        }
    }
    assert forall|other: u32| has_id(after, other) implies table_of(after)[other] == table_of(entries)[other] by {
        let k = place_of(after, other);
        let x = if k < i { k } else { k + 1 };
        assert(after[k] == entries[x]);
        lemma_entry(after, k);
        lemma_entry(entries, x);
    }
    assert(table_of(after) =~= table_of(entries).remove(id));
}

proof fn lemma_added<V>(entries: Seq<(u32, V)>, id: u32, value: V)
    requires
        distinct(entries),
        !has_id(entries, id),
    ensures
        distinct(entries.push((id, value))),
        table_of(entries.push((id, value))) == table_of(entries).insert(id, value),
{
    let after = entries.push((id, value));
    assert forall|a: int, b: int| 0 <= a < b < after.len() implies (#[trigger] after[a]).0 != (
    #[trigger] after[b]).0 by {
        assert(after[a] == entries[a]);
        if b < entries.len() {
            assert(after[b] == entries[b]);
        }
    }
    assert forall|other: u32| has_id(after, other) == (has_id(entries, other) || other == id) by {
        if has_id(after, other) {
            let k = place_of(after, other);
            if k < entries.len() {
                assert(after[k] == entries[k]);
            }
        }
        if has_id(entries, other) {
            let k = place_of(entries, other);
            assert(after[k] == entries[k]);
        }
        if other == id {
            assert(after[entries.len() as int].0 == id);
        }
    }
    assert forall|other: u32| has_id(after, other) implies table_of(after)[other] == table_of(
        entries,
    ).insert(id, value)[other] by {
        let k = place_of(after, other);
        lemma_entry(after, k);
        if k < entries.len() {
            assert(after[k] == entries[k]);
            lemma_entry(entries, k);
            assert(other != id);
        } else {
            assert(other == id);
        }
    }
    assert(table_of(after) =~= table_of(entries).insert(id, value));
}

impl<V> IdTable<V> {
    #[verifier::type_invariant]
    spec fn inv(self) -> bool {
        distinct(self.entries@)
    }

    pub fn new() -> (r: Self)
        ensures
            r@ == Map::<u32, V>::empty(),
    {
        let r = IdTable { entries: Vec::new() };
        assert(r@ =~= Map::empty());
        r
    }

    fn take_entries(&mut self) -> (r: Vec<(u32, V)>)
        ensures
            r@ == old(self).entries@,
    {
        let mut entries: Vec<(u32, V)> = Vec::new();
        core::mem::swap(&mut self.entries, &mut entries);
        entries
    }

    fn position(&self, id: u32) -> (r: Option<usize>)
        ensures
            match r {
                Some(i) => i < self.entries@.len() && self.entries@[i as int].0 == id,
                None => !has_id(self.entries@, id),
            },
    {
        let mut i: usize = 0;
        while i < self.entries.len()
            invariant
                i <= self.entries@.len(),
                forall|k: int| 0 <= k < i ==> (#[trigger] self.entries@[k]).0 != id,
            decreases self.entries@.len() - i,
        {
            if self.entries[i].0 == id {
                return Some(i);
            }
            i = i + 1;
        }
        None
    }

    pub fn contains(&self, id: u32) -> (r: bool)
        ensures
            r == self@.dom().contains(id),
    {
        match self.position(id) {
            Some(i) => {
                assert(has_id(self.entries@, id));
                true
            },
            None => false,
        }
    }

    pub fn is_empty(&self) -> (r: bool)
        ensures
            r == self@.dom().is_empty(),
    {
        let r = self.entries.len() == 0;
        proof {
            if r {
                assert(self@.dom() =~= Set::empty());
            } else {
                assert(has_id(self.entries@, self.entries@[0].0));
                assert(self@.dom().contains(self.entries@[0].0));
            }
        }
        r
    }

    pub fn get(&self, id: u32) -> (r: Option<&V>)
        ensures
            match r {
                Some(value) => self@.dom().contains(id) && *value == self@[id],
                None => !self@.dom().contains(id),
            },
    {
        match self.position(id) {
            Some(i) => {
                proof {
                    use_type_invariant(self);
                    lemma_entry(self.entries@, i as int);
                }
                Some(&self.entries[i].1)
            },
            None => None,
        }
    }

    pub fn remove(&mut self, id: u32) -> (r: Option<V>)
        ensures
            final(self)@ == old(self)@.remove(id),
            match r {
                Some(value) => old(self)@.dom().contains(id) && value == old(self)@[id],
                None => !old(self)@.dom().contains(id),
            },
    {
        proof {
            use_type_invariant(&*self);
        }
        match self.position(id) {
            Some(i) => {
                proof {
                    lemma_entry(self.entries@, i as int);
                    lemma_removed(self.entries@, i as int);
                }
                let mut entries = self.take_entries();
                let (_, value) = entries.remove(i);
                self.entries = entries;
                Some(value)
            },
            None => {
                assert(self@ =~= old(self)@.remove(id));
                None
            },
        }
    }

    /// Puts a value in the place of the one with the same number.
    pub fn insert(&mut self, id: u32, value: V)
        ensures
            final(self)@ == old(self)@.insert(id, value),
    {
        let _ = self.remove(id);
        proof {
            use_type_invariant(&*self);
            assert(!has_id(self.entries@, id)) by {
                assert(!self@.dom().contains(id));
            }
            lemma_added(self.entries@, id, value);
        }
        let mut entries = self.take_entries();
        entries.push((id, value));
        self.entries = entries;
        assert(self@ =~= old(self)@.insert(id, value));
    }

    pub fn clear(&mut self)
        ensures
            final(self)@ == Map::<u32, V>::empty(),
    {
        self.entries = Vec::new();
        assert(self@ =~= Map::empty());
    }

    /// Takes any one value out of the table.
    pub fn pop(&mut self) -> (r: Option<(u32, V)>)
        ensures
            match r {
                Some((id, value)) => old(self)@.dom().contains(id) && value == old(self)@[id]
                    && final(self)@ == old(self)@.remove(id) && final(self).size() == old(self).size() - 1,
                None => old(self)@.dom().is_empty() && final(self)@ == old(self)@,
            },
    {
        proof {
            use_type_invariant(&*self);
        }
        let len: usize = self.entries.len();
        if len == 0 {
            assert(self@.dom() =~= Set::empty());
            return None;
        }
        proof {
            lemma_entry(self.entries@, len - 1);
            lemma_removed(self.entries@, len - 1);
        }
        let mut entries = self.take_entries();
        let entry = entries.remove(len - 1);
        self.entries = entries;
        Some(entry)
    }

    /// Takes out the values whose numbers are not among some, and says whether
    /// there were any.
    pub fn retain(&mut self, ids: &Vec<u32>) -> (changed: bool)
        ensures
            final(self)@ == old(self)@.restrict(ids@.to_set()),
            changed == !old(self)@.dom().subset_of(ids@.to_set()),
    {
        let ghost start = self@;
        let mut kept: IdTable<V> = IdTable::new();
        let mut changed = false;
        let ghost mut seen = Set::<u32>::empty();
        loop
            invariant_except_break
                self@ == start.remove_keys(seen),
            invariant
                start == old(self)@,
                seen.subset_of(start.dom()),
                kept@ == start.restrict(seen.intersect(ids@.to_set())),
                changed == !seen.subset_of(ids@.to_set()),
            ensures
                seen == start.dom(),
            decreases self.size(),
        {
            match self.pop() {
                Some((id, value)) => {
                    let wanted = has_number(ids, id);
                    let ghost before = seen;
                    proof {
                        seen = seen.insert(id);
                        assert(self@ =~= start.remove_keys(seen));
                    }
                    if wanted {
                        kept.insert(id, value);
                        assert(kept@ =~= start.restrict(seen.intersect(ids@.to_set())));
                        assert(changed == !seen.subset_of(ids@.to_set()));
                    } else {
                        changed = true;
                        assert(kept@ =~= start.restrict(seen.intersect(ids@.to_set())));
                        assert(!seen.subset_of(ids@.to_set())) by {
                            assert(seen.contains(id));
                        }
                    }
                },
                None => {
                    assert(seen =~= start.dom()) by {
                        assert forall|id: u32| start.dom().contains(id) implies seen.contains(id) by {
                            if !seen.contains(id) {
                                assert(start.remove_keys(seen).dom().contains(id));
                            }
                        }
                    }
                    break;
                },
            }
        }
        assert(kept@ =~= start.restrict(ids@.to_set()));
        *self = kept;
        changed
    }

    /// How many values the table holds.
    pub closed spec fn size(&self) -> nat {
        self.entries@.len()
    }
}

fn has_number(ids: &Vec<u32>, id: u32) -> (r: bool)
    ensures
        r == ids@.to_set().contains(id),
{
    let mut i: usize = 0;
    while i < ids.len()
        invariant
            i <= ids@.len(),
            forall|k: int| 0 <= k < i ==> ids@[k] != id,
        decreases ids@.len() - i,
    {
        if ids[i] == id {
            assert(ids@.contains(id));
            return true;
        }
        i = i + 1;
    }
    false
}

} // verus!
