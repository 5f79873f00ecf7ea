//! Tables keyed by account address.

use crate::base::types::Address;
use vstd::prelude::*;

verus! {

/// What a list of entries with distinct addresses maps each address to.
pub open spec fn table_of<V>(s: Seq<(Address, V)>) -> Map<Address, V>
    decreases s.len(),
{
    if s.len() == 0 {
        Map::empty()
    } else {
        table_of(s.drop_last()).insert(s.last().0, s.last().1)
    }
}

/// No address occurs twice.
pub open spec fn distinct<V>(s: Seq<(Address, V)>) -> bool {
    forall|i: int, j: int| 0 <= i < j < s.len() ==> s[i].0 != s[j].0
}

/// The domain of a table is the set of its addresses.
proof fn lemma_table_domain<V>(s: Seq<(Address, V)>, a: Address)
    ensures
        table_of(s).contains_key(a) == exists|i: int| 0 <= i < s.len() && #[trigger] s[i].0 == a,
    decreases s.len(),
{
    if s.len() > 0 {
        let rest = s.drop_last();
        lemma_table_domain(rest, a);
        assert(s.last() == s[s.len() - 1]);
        if exists|i: int| 0 <= i < rest.len() && #[trigger] rest[i].0 == a {
            let i = choose|i: int| 0 <= i < rest.len() && #[trigger] rest[i].0 == a;
            assert(s[i].0 == a);
        }
        if exists|i: int| 0 <= i < s.len() && #[trigger] s[i].0 == a {
            let i = choose|i: int| 0 <= i < s.len() && #[trigger] s[i].0 == a;
            if i < s.len() - 1 {
                assert(rest[i].0 == a);
            }
        }
    }
}

/// The value at an address is the value of the entry with that address.
proof fn lemma_table_at<V>(s: Seq<(Address, V)>, i: int)
    requires
        distinct(s),
        0 <= i < s.len(),
    ensures
        table_of(s).contains_key(s[i].0),
        table_of(s)[s[i].0] == s[i].1,
    decreases s.len(),
{
    assert(s.last() == s[s.len() - 1]);
    if i < s.len() - 1 {
        let rest = s.drop_last();
        assert(rest[i] == s[i]);
        lemma_table_at(rest, i);
        assert(s[i].0 != s[s.len() - 1].0);
    }
}

/// To replace the value of an entry is to insert at its address.
proof fn lemma_table_update<V>(s: Seq<(Address, V)>, i: int, v: V)
    requires
        distinct(s),
        0 <= i < s.len(),
    ensures
        distinct(s.update(i, (s[i].0, v))),
        table_of(s.update(i, (s[i].0, v))) == table_of(s).insert(s[i].0, v),
    decreases s.len(),
{
    let t = s.update(i, (s[i].0, v));
    let rest = s.drop_last();
    assert(s.last() == s[s.len() - 1]);
    assert(t.last() == t[t.len() - 1]);
    if i < s.len() - 1 {
        lemma_table_update(rest, i, v);
        assert(t.drop_last() =~= rest.update(i, (rest[i].0, v)));
        assert(s[i].0 != s[s.len() - 1].0);
        assert(table_of(t) =~= table_of(s).insert(s[i].0, v));
    } else {
        assert(t.drop_last() =~= rest);
        assert(table_of(t) =~= table_of(s).insert(s[i].0, v));
    }
}

/// Values by account address.
#[derive(Clone, Debug)]
pub struct AddressTable<V> {
    entries: Vec<(Address, V)>,
}

impl<V> View for AddressTable<V> {
    type V = Map<Address, V>;

    closed spec fn view(&self) -> Map<Address, V> {
        table_of(self.entries@)
    }
}

impl<V> AddressTable<V> {
    /// No address occurs twice.
    pub closed spec fn wf(&self) -> bool {
        distinct(self.entries@)
    }

    /// An empty table.
    pub fn new() -> (r: AddressTable<V>)
        ensures
            r.wf(),
            r@ == Map::<Address, V>::empty(),
    {
        AddressTable { entries: Vec::new() }
    }

    /// The place of an address.
    fn find(&self, address: &Address) -> (r: Option<usize>)
        requires
            self.wf(),
        ensures
            match r {
                Some(i) => i < self.entries@.len() && self.entries@[i as int].0 == *address
                    && self@.contains_key(*address) && self@[*address]
                    == self.entries@[i as int].1,
                None => !self@.contains_key(*address),
            },
    {
        let mut i: usize = 0;
        while i < self.entries.len()
            invariant
                self.wf(),
                i <= self.entries@.len(),
                forall|k: int| 0 <= k < i ==> #[trigger] self.entries@[k].0 != *address,
            decreases self.entries@.len() - i,
        {
            if self.entries[i].0 == *address {
                proof {
                    lemma_table_at(self.entries@, i as int);
                }
                return Some(i);
            }
            i = i + 1;
        }
        proof {
            lemma_table_domain(self.entries@, *address);
        }
        None
    }

    /// The value at an address.
    pub fn get(&self, address: &Address) -> (r: Option<&V>)
        requires
            self.wf(),
        ensures
            match r {
                Some(v) => self@.contains_key(*address) && *v == self@[*address],
                None => !self@.contains_key(*address),
            },
    {
        match self.find(address) {
            Some(i) => Some(&self.entries[i].1),
            None => None,
        }
    }

    /// Whether there is a value at an address.
    pub fn contains(&self, address: &Address) -> (r: bool)
        requires
            self.wf(),
        ensures
            r == self@.contains_key(*address),
    {
        self.find(address).is_some()
    }

    /// Sets the value at an address.
    pub fn insert(&mut self, address: Address, value: V)
        requires
            old(self).wf(),
        ensures
            final(self).wf(),
            final(self)@ == old(self)@.insert(address, value),
    {
        match self.find(&address) {
            Some(i) => {
                proof {
                    lemma_table_update(self.entries@, i as int, value);
                }
                self.entries.set(i, (address, value));
            },
            None => {
                let ghost before = self.entries@;
                self.entries.push((address, value));
                proof {
                    assert(self.entries@.drop_last() =~= before);
                    assert forall|i: int| 0 <= i < before.len() implies #[trigger] before[i].0
                        != address by {
                        lemma_table_at(before, i);
                    }
                }
            },
        }
    }

    /// The value at an address, for change.
    pub fn get_mut(&mut self, address: &Address) -> (r: Option<&mut V>)
        requires
            old(self).wf(),
        ensures
            final(self).wf(),
            match r {
                Some(v) => {
                    &&& old(self)@.contains_key(*address)
                    &&& *v == old(self)@[*address]
                    &&& final(self)@ == old(self)@.insert(*address, *final(v))
                },
                None => !old(self)@.contains_key(*address) && final(self)@ == old(self)@,
            },
    {
        match self.find(address) {
            Some(i) => {
                proof {
                    let s = self.entries@;
                    let k = i as int;
                    assert forall|v: V| #![trigger s.update(k, (s[k].0, v))] {
                        &&& distinct(s.update(k, (s[k].0, v)))
                        &&& table_of(s.update(k, (s[k].0, v))) == table_of(s).insert(s[k].0, v)
                    } by {
                        lemma_table_update(s, k, v);
                    }
                }
                Some(&mut self.entries[i].1)
            },
            None => None,
        }
    }

    /// The addresses of the table.
    pub fn addresses(&self) -> (r: Vec<Address>)
        requires
            self.wf(),
        ensures
            r@.no_duplicates(),
            r@.to_set() == self@.dom(),
    {
        let mut out: Vec<Address> = Vec::new();
        let mut i: usize = 0;
        while i < self.entries.len()
            invariant
                i <= self.entries@.len(),
                out@.len() == i,
                forall|k: int| 0 <= k < i ==> #[trigger] out@[k] == self.entries@[k].0,
            decreases self.entries@.len() - i,
        {
            out.push(self.entries[i].0);
            i = i + 1;
        }
        proof {
            assert forall|a: Address| out@.to_set().contains(a) == self@.dom().contains(a) by {
                lemma_table_domain(self.entries@, a);
                if out@.contains(a) {
                    let k = choose|k: int| 0 <= k < out@.len() && out@[k] == a;
                    assert(self.entries@[k].0 == a);
                }
                if self@.contains_key(a) {
                    let k = choose|k: int|
                        0 <= k < self.entries@.len() && #[trigger] self.entries@[k].0 == a;
                    assert(out@[k] == a);
                }
            }
            assert(out@.to_set() =~= self@.dom());
        }
        out
    }

    /// Removes every entry.
    pub fn clear(&mut self)
        ensures
            final(self).wf(),
            final(self)@ == Map::<Address, V>::empty(),
    {
        self.entries = Vec::new();
    }
}

} // verus!
