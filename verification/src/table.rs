//! The table of a peer's open connections, keyed by the peer's address.

use vstd::prelude::*;

use crate::address::PeerAddr;
use crate::random::random_below;

verus! {

/// The open connections of a peer: at most one connection per address.
/// `C` is the connection handle, which this library only stores.
pub struct ConnectionTable<C> {
    entries: Vec<(PeerAddr, C)>,
}

impl<C> ConnectionTable<C> {
    /// The addresses of the entries, in table order.
    pub closed spec fn keys(&self) -> Seq<PeerAddr> {
        self.entries@.map_values(|e: (PeerAddr, C)| e.0)
    }

    #[verifier::type_invariant]
    closed spec fn distinct_keys(&self) -> bool {
        self.keys().no_duplicates()
    }
}

impl<C> View for ConnectionTable<C> {
    type V = Map<PeerAddr, C>;

    closed spec fn view(&self) -> Map<PeerAddr, C> {
        Map::new(
            |a: PeerAddr| self.keys().contains(a),
            |a: PeerAddr| self.entries@[self.keys().index_of(a)].1,
        )
    }
}

impl<C> ConnectionTable<C> {
    /// What the view is, in terms of the entries, for a table whose keys
    /// are distinct.
    proof fn lemma_view(&self)
        requires
            self.keys().no_duplicates(),
        ensures
            self@.dom() == self.keys().to_set(),
            self@.dom().finite(),
            self@.len() == self.entries@.len(),
            forall|i: int|
                0 <= i < self.entries@.len() ==> #[trigger] self@[self.entries@[i].0]
                    == self.entries@[i].1,
            forall|i: int|
                0 <= i < self.entries@.len() ==> self@.dom().contains(
                    #[trigger] self.entries@[i].0,
                ),
    {
        assert(self@.dom() =~= self.keys().to_set());
        self.keys().unique_seq_to_set();
        assert forall|i: int| 0 <= i < self.entries@.len() implies #[trigger] self@[self.entries@[i].0]
            == self.entries@[i].1 by {
            assert(self.keys()[i] == self.entries@[i].0);
            assert(self.keys().contains(self.entries@[i].0));
            let j = self.keys().index_of(self.entries@[i].0);
            assert(self.keys()[j] == self.keys()[i]);
        }
        assert forall|i: int| 0 <= i < self.entries@.len() implies self@.dom().contains(
            #[trigger] self.entries@[i].0,
        ) by {
            assert(self.keys()[i] == self.entries@[i].0);
        }
    }

    /// An empty table.
    pub fn new() -> (t: ConnectionTable<C>)
        ensures
            t@ == Map::<PeerAddr, C>::empty(),
    {
        let t = ConnectionTable { entries: Vec::new() };
        assert(t.keys() =~= Seq::<PeerAddr>::empty());
        assert(t@ =~= Map::<PeerAddr, C>::empty());
        t
    }

    /// The number of open connections.
    pub fn len(&self) -> (n: usize)
        ensures
            n == self@.len(),
            self@.dom().finite(),
    {
        proof {
            use_type_invariant(self);
            self.lemma_view();
        }
        self.entries.len()
    }

    /// The position of `address` in the table, if it is there.
    fn find(&self, address: &PeerAddr) -> (r: Option<usize>)
        ensures
            match r {
                Some(i) => i < self.entries@.len() && self.entries@[i as int].0 == *address,
                None => !self.keys().contains(*address),
            },
    {
        let mut i: usize = 0;
        while i < self.entries.len()
            invariant
                i <= self.entries@.len(),
                forall|j: int| 0 <= j < i ==> self.entries@[j].0 != *address,
            decreases self.entries@.len() - i,
        {
            if self.entries[i].0 == *address {
                return Some(i);
            }
            i = i + 1;
        }
        proof {
            if self.keys().contains(*address) {
                let j = choose|j: int| 0 <= j < self.keys().len() && self.keys()[j] == *address;
                assert(self.entries@[j].0 == *address);
            }
        }
        None
    }

    /// Whether a connection to `address` is open.
    pub fn contains(&self, address: &PeerAddr) -> (b: bool)
        ensures
            b == self@.dom().contains(*address),
    {
        proof {
            use_type_invariant(self);
            self.lemma_view();
        }
        match self.find(address) {
            Some(_) => true,
            None => false,
        }
    }

    /// The connection to `address`, if one is open.
    pub fn get(&self, address: &PeerAddr) -> (r: Option<&C>)
        ensures
            match r {
                Some(c) => self@.dom().contains(*address) && *c == self@[*address],
                None => !self@.dom().contains(*address),
            },
    {
        proof {
            use_type_invariant(self);
            self.lemma_view();
        }
        match self.find(address) {
            Some(i) => Some(&self.entries[i].1),
            None => None,
        }
    }

    /// The addresses of all open connections, each once.
    pub fn addresses(&self) -> (v: Vec<PeerAddr>)
        ensures
            v@.no_duplicates(),
            v@.to_set() == self@.dom(),
            v@.len() == self@.len(),
    {
        proof {
            use_type_invariant(self);
            self.lemma_view();
        }
        let mut v: Vec<PeerAddr> = Vec::new();
        let mut i: usize = 0;
        while i < self.entries.len()
            invariant
                i <= self.entries@.len(),
                v@ == self.keys().subrange(0, i as int),
            decreases self.entries@.len() - i,
        {
            v.push(self.entries[i].0);
            i = i + 1;
            assert(v@ =~= self.keys().subrange(0, i as int));
        }
        assert(v@ =~= self.keys());
        v
    }

    /// Opens (or replaces) the connection to `address`; the replaced
    /// connection, if any, is handed back.
    pub fn insert(&mut self, address: PeerAddr, conn: C) -> (old_conn: Option<C>)
        ensures
            final(self)@ == old(self)@.insert(address, conn),
            match old_conn {
                Some(c) => old(self)@.dom().contains(address) && c == old(self)@[address],
                None => !old(self)@.dom().contains(address),
            },
    {
        proof {
            use_type_invariant(&*self);
            self.lemma_view();
        }
        let ghost before = *self;
        match self.find(&address) {
            Some(i) => {
                let mut entries: Vec<(PeerAddr, C)> = Vec::new();
                std::mem::swap(&mut entries, &mut self.entries);
                let (_, prev) = entries.remove(i);
                entries.insert(i, (address, conn));
                assert(entries@.map_values(|e: (PeerAddr, C)| e.0) =~= before.keys().update(i as int, address));
                assert(entries@.map_values(|e: (PeerAddr, C)| e.0).no_duplicates()) by {
                    let ks = entries@.map_values(|e: (PeerAddr, C)| e.0);
                    assert forall|j: int, k: int|
                        0 <= j < ks.len() && 0 <= k < ks.len() && j != k
                        implies ks[j] != ks[k] by {
                        assert(before.keys()[i as int] == address);
                    }
                }
                self.entries = entries;
                proof {
                    assert(self.entries@ == before.entries@.update(i as int, (address, conn)));
                    self.lemma_view();
                    assert forall|a: PeerAddr| #[trigger] self@.dom().contains(a)
                        == before@.insert(address, conn).dom().contains(a) by {
                        if a != address {
                            if before.keys().contains(a) {
                                let j = choose|j: int|
                                    0 <= j < before.keys().len() && before.keys()[j] == a;
                                assert(self.keys()[j] == a);
                            }
                            if self.keys().contains(a) {
                                let j = choose|j: int|
                                    0 <= j < self.keys().len() && self.keys()[j] == a;
                                assert(before.keys()[j] == a);
                            }
                        }
                        assert(self.keys()[i as int] == address);
                    }
                    assert forall|a: PeerAddr| #[trigger] self@.dom().contains(a) implies self@[a]
                        == before@.insert(address, conn)[a] by {
                        let j = choose|j: int| 0 <= j < self.keys().len() && self.keys()[j] == a;
                        assert(self.keys()[j] == self.entries@[j].0);
                        if j != i {
                            assert(before.entries@[j].0 == a);
                        }
                    }
                    assert(self@ =~= before@.insert(address, conn));
                }
                Some(prev)
            },
            None => {
                let mut entries: Vec<(PeerAddr, C)> = Vec::new();
                std::mem::swap(&mut entries, &mut self.entries);
                entries.push((address, conn));
                assert(entries@.map_values(|e: (PeerAddr, C)| e.0) =~= before.keys().push(address));
                assert(entries@.map_values(|e: (PeerAddr, C)| e.0).no_duplicates()) by {
                    let ks = entries@.map_values(|e: (PeerAddr, C)| e.0);
                    assert forall|j: int, k: int|
                        0 <= j < ks.len() && 0 <= k < ks.len() && j != k
                        implies ks[j] != ks[k] by {
                        if j == before.keys().len() {
                            assert(!before.keys().contains(address));
                            if k < before.keys().len() {
                                assert(before.keys()[k] == ks[k]);
                            }
                        }
                        if k == before.keys().len() {
                            assert(!before.keys().contains(address));
                            if j < before.keys().len() {
                                assert(before.keys()[j] == ks[j]);
                            }
                        }
                    }
                }
                self.entries = entries;
                proof {
                    self.lemma_view();
                    assert forall|a: PeerAddr| #[trigger] self@.dom().contains(a)
                        == before@.insert(address, conn).dom().contains(a) by {
                        if a != address {
                            if before.keys().contains(a) {
                                let j = choose|j: int|
                                    0 <= j < before.keys().len() && before.keys()[j] == a;
                                assert(self.keys()[j] == a);
                            }
                            if self.keys().contains(a) {
                                let j = choose|j: int|
                                    0 <= j < self.keys().len() && self.keys()[j] == a;
                                assert(before.keys()[j] == a);
                            }
                        }
                        assert(self.keys()[before.keys().len() as int] == address);
                    }
                    assert forall|a: PeerAddr| #[trigger] self@.dom().contains(a) implies self@[a]
                        == before@.insert(address, conn)[a] by {
                        let j = choose|j: int| 0 <= j < self.keys().len() && self.keys()[j] == a;
                        assert(self.keys()[j] == self.entries@[j].0);
                        if j < before.entries@.len() {
                            assert(before.entries@[j] == self.entries@[j]);
                        }
                    }
                    assert(self@ =~= before@.insert(address, conn));
                }
                None
            },
        }
    }

    /// Takes out the entry at position `i`.
    fn remove_at(&mut self, i: usize) -> (e: (PeerAddr, C))
        requires
            i < old(self)@.len(),
        ensures
            e.0 == old(self).entries@[i as int].0,
            old(self)@.dom().contains(e.0),
            e.1 == old(self)@[e.0],
            final(self)@ == old(self)@.remove(e.0),
    {
        proof {
            use_type_invariant(&*self);
            self.lemma_view();
        }
        let ghost before = *self;
        let mut entries: Vec<(PeerAddr, C)> = Vec::new();
        std::mem::swap(&mut entries, &mut self.entries);
        let e = entries.swap_remove(i);
        let ghost last = (before.entries@.len() - 1) as int;
        let ghost ks = entries@.map_values(|x: (PeerAddr, C)| x.0);
        assert(ks =~= before.keys().update(i as int, before.keys()[last]).drop_last());
        assert(ks.no_duplicates()) by {
            assert forall|j: int, k: int|
                0 <= j < ks.len() && 0 <= k < ks.len() && j != k
                implies ks[j] != ks[k] by {
                if j == i {
                    assert(ks[j] == before.keys()[last]);
                }
                if k == i {
                    assert(ks[k] == before.keys()[last]);
                }
            }
        }
        self.entries = entries;
        proof {
            assert(self.keys() == ks);
            self.lemma_view();
            assert(before.keys()[i as int] == e.0);
            assert forall|a: PeerAddr| #[trigger] self@.dom().contains(a)
                == before@.remove(e.0).dom().contains(a) by {
                if self.keys().contains(a) {
                    let j = choose|j: int| 0 <= j < self.keys().len() && self.keys()[j] == a;
                    if j == i {
                        assert(before.keys()[last] == a);
                        assert(last != i);
                    } else {
                        assert(before.keys()[j] == a);
                        assert(j != i);
                    }
                }
                if a != e.0 && before.keys().contains(a) {
                    let j = choose|j: int| 0 <= j < before.keys().len() && before.keys()[j] == a;
                    assert(j != i);
                    if j == last {
                        assert(self.keys()[i as int] == a);
                    } else {
                        assert(self.keys()[j] == a);
                    }
                }
            }
            assert forall|a: PeerAddr| #[trigger] self@.dom().contains(a) implies self@[a]
                == before@.remove(e.0)[a] by {
                let j = choose|j: int| 0 <= j < self.keys().len() && self.keys()[j] == a;
                assert(self.keys()[j] == self.entries@[j].0);
                if j == i {
                    assert(self.entries@[j] == before.entries@[last]);
                } else {
                    assert(self.entries@[j] == before.entries@[j]);
                }
            }
            assert(self@ =~= before@.remove(e.0));
        }
        e
    }

    /// Closes the entry for `address`, handing back its connection if it
    /// was open.
    pub fn remove(&mut self, address: &PeerAddr) -> (r: Option<C>)
        ensures
            final(self)@ == old(self)@.remove(*address),
            match r {
                Some(c) => old(self)@.dom().contains(*address) && c == old(self)@[*address],
                None => !old(self)@.dom().contains(*address),
            },
    {
        proof {
            use_type_invariant(&*self);
            self.lemma_view();
        }
        match self.find(address) {
            Some(i) => {
                let (_, c) = self.remove_at(i);
                Some(c)
            },
            None => {
                assert(self@.remove(*address) =~= self@);
                None
            },
        }
    }

    /// The address of a connection picked at random.
    pub fn random_address(&self) -> (a: PeerAddr)
        requires
            self@.len() > 0,
        ensures
            self@.dom().contains(a),
    {
        proof {
            use_type_invariant(self);
            self.lemma_view();
        }
        let i = random_below(self.entries.len());
        self.entries[i].0
    }

    /// Closes connections picked at random until at most `limit` are left.
    pub fn trim_random(&mut self, limit: usize)
        ensures
            final(self)@.len() == if old(self)@.len() <= limit { old(self)@.len() } else { limit as nat },
            final(self)@.submap_of(old(self)@),
    {
        proof {
            use_type_invariant(&*self);
            self.lemma_view();
        }
        let ghost start = self@;
        while self.entries.len() > limit
            invariant
                self.entries@.len() >= limit || self.entries@.len() == start.len(),
                self@.len() == self.entries@.len(),
                self@.dom().finite(),
                self@.submap_of(start),
                start.len() <= limit ==> self@ == start,
            decreases self.entries@.len(),
        {
            let n = self.entries.len();
            let i = random_below(n);
            let _ = self.remove_at(i);
            proof {
                use_type_invariant(&*self);
                self.lemma_view();
            }
        }
    }
}

/// Closing a connection that was just opened to a new address gives back
/// the table as it was before.
pub proof fn lemma_remove_undoes_insert<C>(table: Map<PeerAddr, C>, address: PeerAddr, conn: C)
    requires
        !table.dom().contains(address),
    ensures
        table.insert(address, conn).remove(address) == table,
{
    assert(table.insert(address, conn).remove(address) =~= table);
}

} // verus!
