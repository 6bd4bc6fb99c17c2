use crate::addr::PeerAddr;
use vstd::prelude::*;

verus! {

/// The addresses of a list of entries.
pub open spec fn entry_keys<V>(v: Seq<(PeerAddr, V)>) -> Seq<Seq<char>> {
    v.map_values(|e: (PeerAddr, V)| e.0@)
}

/// The map that a list of entries stands for: each address to its value.
pub open spec fn entry_map<V>(v: Seq<(PeerAddr, V)>) -> Map<Seq<char>, V>
    decreases v.len(),
{
    if v.len() == 0 {
        Map::empty()
    } else {
        entry_map(v.drop_last()).insert(v.last().0@, v.last().1)
    }
}

proof fn lemma_entry_map_dom<V>(v: Seq<(PeerAddr, V)>, k: Seq<char>)
    ensures
        entry_map(v).dom().contains(k) <==> entry_keys(v).contains(k),
    decreases v.len(),
{
    if v.len() > 0 {
        lemma_entry_map_dom(v.drop_last(), k);
        assert(entry_keys(v.drop_last()) =~= entry_keys(v).drop_last());
        if entry_keys(v).contains(k) {
            let i = choose|i: int| 0 <= i < entry_keys(v).len() && entry_keys(v)[i] == k;
            if i < v.len() - 1 {
                assert(entry_keys(v.drop_last())[i] == k);
            }
        }
        if entry_keys(v.drop_last()).contains(k) {
            let i = choose|i: int|
                0 <= i < entry_keys(v.drop_last()).len() && entry_keys(v.drop_last())[i] == k;
            assert(entry_keys(v)[i] == k);
        }
        if k == v.last().0@ {
            assert(entry_keys(v)[v.len() - 1] == k);
        }
    }
}

proof fn lemma_entry_map_at<V>(v: Seq<(PeerAddr, V)>, i: int)
    requires
        entry_keys(v).no_duplicates(),
        0 <= i < v.len(),
    ensures
        entry_map(v).dom().contains(v[i].0@),
        entry_map(v)[v[i].0@] == v[i].1,
    decreases v.len(),
{
    if i < v.len() - 1 {
        let d = v.drop_last();
        assert(entry_keys(d) =~= entry_keys(v).drop_last());
        assert(entry_keys(v)[i] != entry_keys(v)[v.len() - 1]);
        lemma_entry_map_at(d, i);
    }
}

proof fn lemma_entry_map_remove<V>(v: Seq<(PeerAddr, V)>, i: int)
    requires
        entry_keys(v).no_duplicates(),
        0 <= i < v.len(),
    ensures
        entry_map(v.remove(i)) == entry_map(v).remove(v[i].0@),
        entry_keys(v.remove(i)).no_duplicates(),
    decreases v.len(),
{
    let k = v[i].0@;
    let r = v.remove(i);
    assert(entry_keys(r) =~= entry_keys(v).remove(i));
    if i == v.len() - 1 {
        assert(r =~= v.drop_last());
        lemma_entry_map_dom(r, k);
        assert forall|j: int| 0 <= j < entry_keys(r).len() implies entry_keys(r)[j] != k by {
            assert(entry_keys(v)[j] == entry_keys(r)[j]);
            assert(entry_keys(v)[i] == k);
        }
        assert(!entry_keys(r).contains(k));
        assert(entry_map(v).remove(k) =~= entry_map(r));
    } else {
        let d = v.drop_last();
        assert(entry_keys(d) =~= entry_keys(v).drop_last());
        lemma_entry_map_remove(d, i);
        assert(r.drop_last() =~= d.remove(i));
        assert(r.last() == v.last());
        assert(entry_keys(v)[i] != entry_keys(v)[v.len() - 1]);
        assert(entry_map(r) =~= entry_map(d.remove(i)).insert(v.last().0@, v.last().1));
        assert(entry_map(v).remove(k) =~= entry_map(d).remove(k).insert(v.last().0@, v.last().1));
    }
}

/// A table from peer addresses to values, each address at most once.
pub struct AddrTable<V> {
    entries: Vec<(PeerAddr, V)>,
}

impl<V> AddrTable<V> {
    /// The map that the table holds.
    pub closed spec fn map(&self) -> Map<Seq<char>, V> {
        entry_map(self.entries@)
    }

    /// The entries in the order that the table lists them.
    pub closed spec fn listing(&self) -> Seq<(Seq<char>, V)> {
        self.entries@.map_values(|e: (PeerAddr, V)| (e.0@, e.1))
    }

    /// No address is listed twice.
    #[verifier::type_invariant]
    pub closed spec fn wf(&self) -> bool {
        entry_keys(self.entries@).no_duplicates()
    }

    /// The listing names each entry of the map once.
    pub proof fn lemma_listing(&self)
        requires
            self.wf(),
        ensures
            self.map().dom().finite(),
            self.listing().len() == self.map().dom().len(),
            forall|i: int|
                0 <= i < self.listing().len() ==> self.map().dom().contains(
                    #[trigger] self.listing()[i].0,
                ) && self.map()[self.listing()[i].0] == self.listing()[i].1,
            forall|k: Seq<char>|
                self.map().dom().contains(k) ==> exists|i: int|
                    0 <= i < self.listing().len() && #[trigger] self.listing()[i].0 == k,
            forall|i: int, j: int|
                0 <= i < j < self.listing().len() ==> #[trigger] self.listing()[i].0
                    != #[trigger] self.listing()[j].0,
    {
        let v = self.entries@;
        assert forall|i: int, j: int| 0 <= i < j < self.listing().len() implies #[trigger] self.listing()[i].0
            != #[trigger] self.listing()[j].0 by {
            assert(entry_keys(v)[i] == self.listing()[i].0);
            assert(entry_keys(v)[j] == self.listing()[j].0);
        }
        assert forall|i: int| 0 <= i < self.listing().len() implies self.map().dom().contains(
            #[trigger] self.listing()[i].0,
        ) && self.map()[self.listing()[i].0] == self.listing()[i].1 by {
            lemma_entry_map_at(v, i);
        }
        assert forall|k: Seq<char>| self.map().dom().contains(k) implies exists|i: int|
            0 <= i < self.listing().len() && #[trigger] self.listing()[i].0 == k by {
            lemma_entry_map_dom(v, k);
            let i = choose|i: int| 0 <= i < entry_keys(v).len() && entry_keys(v)[i] == k;
            assert(self.listing()[i].0 == k);
        }
        lemma_entry_map_dom_finite(v);
        entry_keys(v).unique_seq_to_set();
        assert(self.map().dom() =~= entry_keys(v).to_set()) by {
            assert forall|k: Seq<char>| self.map().dom().contains(k) <==> entry_keys(v).to_set().contains(k) by {
                lemma_entry_map_dom(v, k);
            }
        }
    }

    /// An empty table.
    pub fn new() -> (r: AddrTable<V>)
        ensures
            r.map() == Map::<Seq<char>, V>::empty(),
    {
        let r = AddrTable { entries: Vec::new() };
        proof {
            assert(entry_keys(r.entries@) =~= Seq::<Seq<char>>::empty());
        }
        r
    }

    /// Where the address is listed, if it is.
    fn find(&self, addr: &PeerAddr) -> (r: Option<usize>)
        ensures
            match r {
                Some(i) => i < self.entries@.len() && self.entries@[i as int].0@ == addr@,
                None => !self.map().dom().contains(addr@),
            },
    {
        proof {
            use_type_invariant(self);
        }
        let mut i: usize = 0;
        while i < self.entries.len()
            invariant
                i <= self.entries@.len(),
                forall|j: int| 0 <= j < i ==> self.entries@[j].0@ != addr@,
            decreases self.entries@.len() - i,
        {
            if self.entries[i].0.same(addr) {
                return Some(i);
            }
            i = i + 1;
        }
        proof {
            lemma_entry_map_dom(self.entries@, addr@);
            if entry_keys(self.entries@).contains(addr@) {
                let j = choose|j: int| 0 <= j < entry_keys(self.entries@).len() && entry_keys(self.entries@)[j] == addr@;
                assert(self.entries@[j].0@ == addr@);
            }
        }
        None
    }

    /// Whether the address is in the table.
    pub fn contains(&self, addr: &PeerAddr) -> (r: bool)
        ensures
            r == self.map().dom().contains(addr@),
    {
        proof {
            use_type_invariant(self);
        }
        match self.find(addr) {
            Some(i) => {
                proof {
                    lemma_entry_map_at(self.entries@, i as int);
                }
                true
            },
            None => false,
        }
    }

    /// The value of the address, if it is in the table.
    pub fn get(&self, addr: &PeerAddr) -> (r: Option<&V>)
        ensures
            match r {
                Some(v) => self.map().dom().contains(addr@) && *v == self.map()[addr@],
                None => !self.map().dom().contains(addr@),
            },
    {
        proof {
            use_type_invariant(self);
        }
        match self.find(addr) {
            Some(i) => {
                proof {
                    lemma_entry_map_at(self.entries@, i as int);
                }
                Some(&self.entries[i].1)
            },
            None => None,
        }
    }

    /// Takes the address and its value out of the table, if it is there.
    pub fn remove(&mut self, addr: &PeerAddr) -> (r: Option<V>)
        ensures
            final(self).map() == old(self).map().remove(addr@),
            match r {
                Some(v) => old(self).map().dom().contains(addr@) && v == old(self).map()[addr@],
                None => !old(self).map().dom().contains(addr@),
            },
    {
        proof {
            use_type_invariant(&*self);
        }
        match self.find(addr) {
            Some(i) => {
                proof {
                    lemma_entry_map_at(self.entries@, i as int);
                    lemma_entry_map_remove(self.entries@, i as int);
                }
                let mut entries: Vec<(PeerAddr, V)> = Vec::new();
                std::mem::swap(&mut entries, &mut self.entries);
                let (_, v) = entries.remove(i);
                self.entries = entries;
                Some(v)
            },
            None => {
                proof {
                    assert(old(self).map().remove(addr@) =~= old(self).map());
                }
                None
            },
        }
    }

    /// Sets the value of the address, replacing any value it had.
    pub fn insert(&mut self, addr: PeerAddr, value: V)
        ensures
            final(self).map() == old(self).map().insert(addr@, value),
    {
        proof {
            use_type_invariant(&*self);
        }
        let _ = self.remove(&addr);
        proof {
            use_type_invariant(&*self);
        }
        let ghost before = self.entries@;
        proof {
            lemma_entry_map_dom(before, addr@);
        }
        let mut entries: Vec<(PeerAddr, V)> = Vec::new();
        std::mem::swap(&mut entries, &mut self.entries);
        entries.push((addr, value));
        proof {
            assert(entries@.drop_last() =~= before);
            assert(entry_keys(entries@) =~= entry_keys(before).push(addr@));
            assert(old(self).map().remove(addr@).insert(addr@, value) =~= old(self).map().insert(
                addr@,
                value,
            ));
        }
        self.entries = entries;
    }

    /// How many entries the table lists.
    pub fn len(&self) -> (r: usize)
        ensures
            r == self.listing().len(),
    {
        self.entries.len()
    }

    /// The `i`-th entry of the listing.
    pub fn entry_at(&self, i: usize) -> (r: (&PeerAddr, &V))
        requires
            i < self.listing().len(),
        ensures
            r.0@ == self.listing()[i as int].0,
            *r.1 == self.listing()[i as int].1,
    {
        let e = &self.entries[i];
        (&e.0, &e.1)
    }
}

proof fn lemma_entry_map_dom_finite<V>(v: Seq<(PeerAddr, V)>)
    ensures
        entry_map(v).dom().finite(),
    decreases v.len(),
{
    if v.len() > 0 {
        lemma_entry_map_dom_finite(v.drop_last());
    }
}

} // verus!
