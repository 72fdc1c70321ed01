//! Joining the network: starting from a seed peer, ask peers for their
//! peer lists round after round, spreading outwards, until enough
//! connections are open or no new peers turn up.
//!
//! The network work (asking a peer, which also tries to join it) is done by
//! the caller; this state machine decides whom to ask and when to stop.

use vstd::prelude::*;

use crate::address::PeerAddr;
use crate::protocol::MAX_CONNECTIONS;
use crate::random::shuffle;

verus! {

/// The state of a bootstrap, as the caller sees it.
pub struct BootstrapView {
    /// This peer's own address.
    pub own: PeerAddr,
    /// Every address that was seen: our own and those found in past rounds.
    pub visited: Set<PeerAddr>,
    /// The peers to ask in the current round, in asking order.
    pub frontier: Seq<PeerAddr>,
    /// How many of the frontier were handed out to be asked.
    pub next: nat,
    /// New addresses found in the current round, in order of arrival.
    pub found: Seq<PeerAddr>,
    /// The open connections at the start of the round plus the addresses
    /// reported in this round (saturating at `usize::MAX`).
    pub known: nat,
    /// Whether some peer answered with its peer list.
    pub connected: bool,
    /// How many rounds have ended.
    pub round: nat,
}

/// The addresses of `peers` that are not in `visited`, in order.
pub open spec fn unvisited(peers: Seq<PeerAddr>, visited: Set<PeerAddr>) -> Seq<PeerAddr>
    decreases peers.len(),
{
    if peers.len() == 0 {
        Seq::empty()
    } else {
        let rest = unvisited(peers.drop_last(), visited);
        if visited.contains(peers.last()) {
            rest
        } else {
            rest.push(peers.last())
        }
    }
}

/// The addresses kept from an answer are exactly the reported ones that
/// were not seen before (whole address: IP and port), each as often and in
/// the order the answer gives them.
pub proof fn lemma_unvisited_keeps_new_addresses(peers: Seq<PeerAddr>, visited: Set<PeerAddr>)
    ensures
        unvisited(peers, visited) == peers.filter(|a: PeerAddr| !visited.contains(a)),
        forall|a: PeerAddr|
            #[trigger] unvisited(peers, visited).contains(a) <==> (peers.contains(a)
                && !visited.contains(a)),
        forall|a: PeerAddr|
            !visited.contains(a) ==> #[trigger] unvisited(peers, visited).to_multiset().count(a)
                == peers.to_multiset().count(a),
    decreases peers.len(),
{
    reveal_with_fuel(Seq::filter, 1);
    if peers.len() > 0 {
        let init = peers.drop_last();
        let x = peers.last();
        lemma_unvisited_keeps_new_addresses(init, visited);
        let rest = unvisited(init, visited);
        assert(peers =~= init.push(x));
        assert(init.filter(|a: PeerAddr| !visited.contains(a)) == rest);
        init.to_multiset_ensures();
        rest.to_multiset_ensures();
        assert forall|a: PeerAddr| #[trigger] unvisited(peers, visited).contains(a) <==> (
        peers.contains(a) && !visited.contains(a)) by {
            if peers.contains(a) && !visited.contains(a) {
                let k = choose|k: int| 0 <= k < peers.len() && peers[k] == a;
                if k < init.len() {
                    assert(init[k] == a);
                    assert(rest.contains(a));
                    let j = choose|j: int| 0 <= j < rest.len() && rest[j] == a;
                    assert(unvisited(peers, visited)[j] == a);
                } else {
                    assert(unvisited(peers, visited) == rest.push(x));
                    assert(unvisited(peers, visited)[rest.len() as int] == a);
                }
            }
            if unvisited(peers, visited).contains(a) {
                let j = choose|j: int|
                    0 <= j < unvisited(peers, visited).len() && unvisited(peers, visited)[j] == a;
                if j < rest.len() {
                    assert(rest[j] == a);
                    assert(rest.contains(a));
                    let k = choose|k: int| 0 <= k < init.len() && init[k] == a;
                    assert(peers[k] == a);
                } else {
                    assert(a == x);
                    assert(peers[peers.len() - 1] == a);
                }
            }
        }
    }
}

pub struct Bootstrap {
    own: PeerAddr,
    visited: Vec<PeerAddr>,
    frontier: Vec<PeerAddr>,
    next: usize,
    found: Vec<PeerAddr>,
    known: usize,
    connected: bool,
    round: Ghost<nat>,
}

impl View for Bootstrap {
    type V = BootstrapView;

    closed spec fn view(&self) -> BootstrapView {
        BootstrapView {
            own: self.own,
            visited: self.visited@.to_set(),
            frontier: self.frontier@,
            next: self.next as nat,
            found: self.found@,
            known: self.known as nat,
            connected: self.connected,
            round: self.round@,
        }
    }
}

/// Whether `v` holds `a`.
fn holds(v: &Vec<PeerAddr>, a: &PeerAddr) -> (b: bool)
    ensures
        b == v@.contains(*a),
{
    let mut i: usize = 0;
    while i < v.len()
        invariant
            i <= v@.len(),
            forall|j: int| 0 <= j < i ==> v@[j] != *a,
        decreases v@.len() - i,
    {
        if v[i] == *a {
            return true;
        }
        i = i + 1;
    }
    false
}

impl Bootstrap {
    #[verifier::type_invariant]
    closed spec fn consistent(&self) -> bool {
        &&& self.visited@.contains(self.own)
        &&& forall|i: int| 0 <= i < self.found@.len() ==> !self.visited@.contains(#[trigger] self.found@[i])
        &&& self.next <= self.frontier@.len()
        &&& self.round@ > 0 ==> !self.frontier@.contains(self.own)
    }

    /// A bootstrap of the peer at `own`, whose first round asks `seed`.
    pub fn new(own: PeerAddr, seed: PeerAddr) -> (b: Bootstrap)
        ensures
            b@ == (BootstrapView {
                own,
                visited: set![own],
                frontier: seq![seed],
                next: 0,
                found: Seq::empty(),
                known: 0,
                connected: false,
                round: 0,
            }),
    {
        let mut visited: Vec<PeerAddr> = Vec::new();
        visited.push(own);
        let mut frontier: Vec<PeerAddr> = Vec::new();
        frontier.push(seed);
        assert(visited@[0] == own);
        let b = Bootstrap {
            own,
            visited,
            frontier,
            next: 0,
            found: Vec::new(),
            known: 0,
            connected: false,
            round: Ghost(0),
        };
        assert(b.visited@.to_set() =~= set![own]);
        assert(b.frontier@ =~= seq![seed]);
        assert(b.found@ =~= Seq::<PeerAddr>::empty());
        b
    }

    /// Starts a round while `open` connections are open. A round starts
    /// when at most half the maximum connections are open and there is
    /// someone to ask; the frontier is then put in random order.
    pub fn start_round(&mut self, open: usize) -> (started: bool)
        ensures
            started == (open <= MAX_CONNECTIONS / 2 && old(self)@.frontier.len() > 0),
            started ==> final(self)@ == (BootstrapView {
                frontier: final(self)@.frontier,
                next: 0,
                found: Seq::empty(),
                known: open as nat,
                ..old(self)@
            }),
            started ==> final(self)@.frontier.to_multiset() == old(self)@.frontier.to_multiset(),
            !started ==> final(self)@ == old(self)@,
    {
        proof {
            use_type_invariant(&*self);
        }
        if open <= MAX_CONNECTIONS / 2 && self.frontier.len() > 0 {
            let ghost before = *self;
            self.next = 0;
            let mut frontier: Vec<PeerAddr> = Vec::new();
            std::mem::swap(&mut frontier, &mut self.frontier);
            shuffle(&mut frontier);
            proof {
                before.frontier@.to_multiset_ensures();
                frontier@.to_multiset_ensures();
                if self.round@ > 0 {
                    assert(before.frontier@.to_multiset().count(self.own) == 0);
                    assert(!frontier@.contains(self.own));
                }
            }
            let mut found: Vec<PeerAddr> = Vec::new();
            std::mem::swap(&mut found, &mut self.found);
            self.frontier = frontier;
            self.next = 0;
            self.known = open;
            assert(self.found@ =~= Seq::<PeerAddr>::empty());
            true
        } else {
            false
        }
    }

    /// The next peer to ask in this round, if the round goes on: it stops
    /// once every peer of the frontier was asked, or once the connections
    /// and reported addresses reach half the maximum. After the first
    /// round, a peer is never asked to talk to itself.
    pub fn next_target(&mut self) -> (r: Option<PeerAddr>)
        ensures
            old(self)@.next < old(self)@.frontier.len() && old(self)@.known < MAX_CONNECTIONS / 2
                ==> r == Some(old(self)@.frontier[old(self)@.next as int])
                && final(self)@ == (BootstrapView { next: old(self)@.next + 1, ..old(self)@ }),
            !(old(self)@.next < old(self)@.frontier.len() && old(self)@.known < MAX_CONNECTIONS / 2)
                ==> r is None && final(self)@ == old(self)@,
            r matches Some(a) ==> (old(self)@.round > 0 ==> a != old(self)@.own),
    {
        proof {
            use_type_invariant(&*self);
        }
        if self.next < self.frontier.len() && self.known < MAX_CONNECTIONS / 2 {
            let a = self.frontier[self.next];
            self.next = self.next + 1;
            Some(a)
        } else {
            None
        }
    }

    /// Records the peer list that a peer answered with: the bootstrap has
    /// connected, the reported addresses count towards the known ones, and
    /// those not seen before are kept for the next round.
    pub fn record_peers(&mut self, peers: &Vec<PeerAddr>)
        ensures
            final(self)@ == (BootstrapView {
                found: old(self)@.found + unvisited(peers@, old(self)@.visited),
                known: if old(self)@.known + peers@.len() > usize::MAX {
                    usize::MAX as nat
                } else {
                    old(self)@.known + peers@.len()
                },
                connected: true,
                ..old(self)@
            }),
    {
        proof {
            use_type_invariant(&*self);
        }
        let ghost before = self@;
        let mut found: Vec<PeerAddr> = Vec::new();
        std::mem::swap(&mut found, &mut self.found);
        let mut i: usize = 0;
        while i < peers.len()
            invariant
                i <= peers@.len(),
                self.visited@.to_set() == before.visited,
                self.visited@.contains(self.own),
                found@ == before.found + unvisited(peers@.take(i as int), before.visited),
                forall|j: int| 0 <= j < found@.len() ==> !self.visited@.contains(#[trigger] found@[j]),
            decreases peers@.len() - i,
        {
            let a = peers[i];
            assert(peers@.take(i + 1).drop_last() =~= peers@.take(i as int));
            if !holds(&self.visited, &a) {
                found.push(a);
            }
            i = i + 1;
            assert(found@ =~= before.found + unvisited(peers@.take(i as int), before.visited));
        }
        assert(peers@.take(peers@.len() as int) =~= peers@);
        self.found = found;
        self.known = self.known.saturating_add(peers.len());
        self.connected = true;
    }

    /// Ends the round: what was found becomes visited, and the peers to ask
    /// in the next round.
    pub fn end_round(&mut self)
        ensures
            final(self)@ == (BootstrapView {
                visited: old(self)@.visited + old(self)@.found.to_set(),
                frontier: old(self)@.found,
                next: 0,
                found: Seq::empty(),
                round: old(self)@.round + 1,
                ..old(self)@
            }),
    {
        proof {
            use_type_invariant(&*self);
        }
        let ghost before = *self;
        let mut found: Vec<PeerAddr> = Vec::new();
        std::mem::swap(&mut found, &mut self.found);
        let mut visited: Vec<PeerAddr> = Vec::new();
        visited.push(self.own);
        assert(visited@[0] == self.own);
        std::mem::swap(&mut visited, &mut self.visited);
        let mut i: usize = 0;
        while i < found.len()
            invariant
                i <= found@.len(),
                found@ == before.found@,
                visited@ == before.visited@ + found@.take(i as int),
            decreases found@.len() - i,
        {
            visited.push(found[i]);
            i = i + 1;
            assert(visited@ =~= before.visited@ + found@.take(i as int));
        }
        assert(found@.take(found@.len() as int) =~= found@);
        proof {
            assert(visited@.contains(before.own)) by {
                let k = choose|k: int| 0 <= k < before.visited@.len() && before.visited@[k] == before.own;
                assert(visited@[k] == before.own);
            }
            assert(!found@.contains(before.own));
            assert(visited@.to_set() =~= before.visited@.to_set() + found@.to_set()) by {
                assert forall|a: PeerAddr| #[trigger] visited@.to_set().contains(a)
                    == (before.visited@.to_set() + found@.to_set()).contains(a) by {
                    if visited@.contains(a) {
                        let k = choose|k: int| 0 <= k < visited@.len() && visited@[k] == a;
                        if k >= before.visited@.len() {
                            assert(found@[k - before.visited@.len()] == a);
                        }
                    }
                    if before.visited@.contains(a) {
                        let k = choose|k: int| 0 <= k < before.visited@.len() && before.visited@[k] == a;
                        assert(visited@[k] == a);
                    }
                    if found@.contains(a) {
                        let k = choose|k: int| 0 <= k < found@.len() && found@[k] == a;
                        assert(visited@[before.visited@.len() + k] == a);
                    }
                }
            }
        }
        self.visited = visited;
        self.next = 0;
        self.frontier = found;
        self.round = Ghost((before.round@ + 1) as nat);
        assert(self.found@ =~= Seq::<PeerAddr>::empty());
    }

    /// Whether some peer answered with its peer list.
    pub fn connected(&self) -> (b: bool)
        ensures
            b == self@.connected,
    {
        self.connected
    }
}

} // verus!
