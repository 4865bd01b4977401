//! Overlay membership: the discovery-derived set of known peers and the
//! broadcast channel's partial view of neighbors.
//!
//! Discovery events drive both: an appearance adds the peer to the known
//! set and to the neighbor view (both idempotent); a disappearance removes
//! it from the known set, but removes it from the neighbor view only when
//! the discovery service's current live listing no longer reports it —
//! overlapping discovery sources may race announce and expire events for
//! one peer, and the later live listing is the tiebreaker.  Every known
//! peer is always in the neighbor view.

use vstd::prelude::*;

verus! {

/// Is `p` one of the identities in `v`?
pub open spec fn has_peer(v: Seq<String>, p: Seq<char>) -> bool {
    exists|k: int| 0 <= k < v.len() && v[k]@ == p
}

/// No identity occurs twice in `v`.
pub open spec fn distinct_peers(v: Seq<String>) -> bool {
    forall|j: int, k: int| 0 <= j < k < v.len() ==> v[j]@ != v[k]@
}

/// Whether the identity `p` occurs in the listing `v`.
pub fn contains_peer(v: &Vec<String>, p: &String) -> (b: bool)
    ensures
        b == has_peer(v@, p@),
{
    let n = v.len();
    let mut i: usize = 0;
    while i < n
        invariant
            n == v@.len(),
            i <= n,
            forall|k: int| 0 <= k < i ==> (#[trigger] v@[k])@ != p@,
        decreases n - i,
    {
        if v[i].eq(p) {
            return true;
        }
        i += 1;
    }
    false
}

/// Adds `p` if it is absent; the identities afterwards are those before
/// plus `p`.
fn insert_peer(v: &mut Vec<String>, p: &String)
    requires
        distinct_peers(old(v)@),
    ensures
        distinct_peers(final(v)@),
        forall|q: Seq<char>| has_peer(final(v)@, q) <==> (has_peer(old(v)@, q) || q == p@),
{
    if !contains_peer(v, p) {
        let ghost before = v@;
        v.push(p.clone());
        proof {
            assert(v@[before.len() as int]@ == p@);
            assert(forall|k: int| 0 <= k < before.len() ==> v@[k] == #[trigger] before[k]);
            assert forall|q: Seq<char>|
                has_peer(v@, q) implies (has_peer(before, q) || q == p@) by {
                let k = choose|k: int| 0 <= k < v@.len() && v@[k]@ == q;
                if k < before.len() {
                    assert(before[k]@ == q);
                }
            }
        }
    }
}

/// Removes `p` if it is present; the identities afterwards are those
/// before except `p`.
fn remove_peer(v: &mut Vec<String>, p: &String)
    requires
        distinct_peers(old(v)@),
    ensures
        distinct_peers(final(v)@),
        forall|q: Seq<char>| has_peer(final(v)@, q) <==> (has_peer(old(v)@, q) && q != p@),
{
    let n = v.len();
    let mut i: usize = 0;
    while i < n
        invariant
            v@ == old(v)@,
            n == v@.len(),
            i <= n,
            distinct_peers(v@),
            forall|k: int| 0 <= k < i ==> (#[trigger] v@[k])@ != p@,
        decreases n - i,
    {
        if v[i].eq(p) {
            let ghost before = v@;
            let ghost at = i as int;
            v.remove(i);
            proof {
                assert(v@ == before.remove(at));
                assert forall|q: Seq<char>|
                    has_peer(v@, q) implies (has_peer(before, q) && q != p@) by {
                    let k = choose|k: int| 0 <= k < v@.len() && v@[k]@ == q;
                    if k < at {
                        assert(before[k]@ == q);
                        assert(q != p@);
                    } else {
                        assert(before[k + 1]@ == q);
                        assert(q != p@);
                    }
                }
                assert forall|q: Seq<char>|
                    has_peer(before, q) && q != p@ implies has_peer(v@, q) by {
                    let k = choose|k: int| 0 <= k < before.len() && before[k]@ == q;
                    if k < at {
                        assert(v@[k]@ == q);
                    } else {
                        assert(k != at);
                        assert(v@[k - 1]@ == q);
                    }
                }
                assert forall|j: int, k: int|
                    0 <= j < k < v@.len() implies (#[trigger] v@[j])@ != (#[trigger] v@[k])@ by {
                    let bj: int = if j < at {
                        j
                    } else {
                        j + 1
                    };
                    let bk: int = if k < at {
                        k
                    } else {
                        k + 1
                    };
                    assert(v@[j] == before[bj]);
                    assert(v@[k] == before[bk]);
                }
            }
            return ;
        }
        i += 1;
    }
    proof {
        assert forall|q: Seq<char>| has_peer(v@, q) implies (has_peer(old(v)@, q) && q != p@) by {
            let k = choose|k: int| 0 <= k < v@.len() && v@[k]@ == q;
            assert(v@[k]@ != p@);
        }
    }
}

/// Overlay membership state.  `known` models the discovery monitor's set
/// of currently visible peers; `neighbors` models the broadcast channel's
/// partial view, which the event loop keeps in step through explicit
/// add and remove actions.
pub struct Overlay {
    known: Vec<String>,
    neighbors: Vec<String>,
}

impl Overlay {
    /// The peer identity `p` is currently known via discovery.
    pub closed spec fn knows(&self, p: Seq<char>) -> bool {
        has_peer(self.known@, p)
    }

    /// The peer identity `p` is in the broadcast partial view.
    pub closed spec fn neighbor(&self, p: Seq<char>) -> bool {
        has_peer(self.neighbors@, p)
    }

    /// Well-formed: no duplicates on either side, and every known peer is
    /// also a neighbor.
    pub closed spec fn wf(&self) -> bool {
        &&& distinct_peers(self.known@)
        &&& distinct_peers(self.neighbors@)
        &&& forall|k: int|
            0 <= k < self.known@.len() ==> has_peer(self.neighbors@, (#[trigger] self.known@[k])@)
    }

    /// An overlay with no members at all.
    pub fn new() -> (r: Overlay)
        ensures
            r.wf(),
            forall|q: Seq<char>| !r.knows(q),
            forall|q: Seq<char>| !r.neighbor(q),
    {
        Overlay { known: Vec::new(), neighbors: Vec::new() }
    }

    /// A peer appeared in discovery: add it to the known set and to the
    /// neighbor view.  Idempotent.
    pub fn peer_appeared(&mut self, peer: &String)
        requires
            old(self).wf(),
        ensures
            final(self).wf(),
            forall|q: Seq<char>|
                #[trigger] final(self).knows(q) <==> (old(self).knows(q) || q == peer@),
            forall|q: Seq<char>|
                #[trigger] final(self).neighbor(q) <==> (old(self).neighbor(q) || q == peer@),
    {
        insert_peer(&mut self.known, peer);
        insert_peer(&mut self.neighbors, peer);
        proof {
            assert forall|k: int| 0 <= k < self.known@.len() implies has_peer(
                self.neighbors@,
                (#[trigger] self.known@[k])@,
            ) by {
                let q = self.known@[k]@;
                assert(has_peer(self.known@, q));
            }
        }
    }

    /// A peer expired in discovery: drop it from the known set; drop it
    /// from the neighbor view only if the discovery service's current
    /// live listing (`live`) no longer reports it.  Idempotent.
    pub fn peer_disappeared(&mut self, peer: &String, live: &Vec<String>)
        requires
            old(self).wf(),
        ensures
            final(self).wf(),
            forall|q: Seq<char>|
                #[trigger] final(self).knows(q) <==> (old(self).knows(q) && q != peer@),
            has_peer(live@, peer@) ==> forall|q: Seq<char>|
                #[trigger] final(self).neighbor(q) <==> old(self).neighbor(q),
            !has_peer(live@, peer@) ==> forall|q: Seq<char>|
                #[trigger] final(self).neighbor(q) <==> (old(self).neighbor(q) && q != peer@),
    {
        remove_peer(&mut self.known, peer);
        if !contains_peer(live, peer) {
            remove_peer(&mut self.neighbors, peer);
        }
        proof {
            assert forall|k: int| 0 <= k < self.known@.len() implies has_peer(
                self.neighbors@,
                (#[trigger] self.known@[k])@,
            ) by {
                let q = self.known@[k]@;
                assert(has_peer(self.known@, q));
                assert(has_peer(old(self).known@, q) && q != peer@);
            }
        }
    }

    /// The membership invariant: every identity known via discovery is
    /// also in the broadcast partial view.
    pub proof fn lemma_known_is_neighbor(&self, q: Seq<char>)
        requires
            self.wf(),
            self.knows(q),
        ensures
            self.neighbor(q),
    {
        let k = choose|k: int| 0 <= k < self.known@.len() && self.known@[k]@ == q;
        assert(has_peer(self.neighbors@, self.known@[k]@));
    }

    /// The currently known peer identities, without duplicates: the
    /// listing behind the `ls p` command.
    pub fn known_peers(&self) -> (r: Vec<String>)
        requires
            self.wf(),
        ensures
            distinct_peers(r@),
            forall|q: Seq<char>| has_peer(r@, q) <==> self.knows(q),
    {
        let n = self.known.len();
        let mut out: Vec<String> = Vec::new();
        let mut i: usize = 0;
        while i < n
            invariant
                n == self.known@.len(),
                i <= n,
                out@.len() == i,
                forall|k: int| 0 <= k < i ==> out@[k] == #[trigger] self.known@[k],
            decreases n - i,
        {
            out.push(self.known[i].clone());
            i += 1;
        }
        proof {
            assert(out@ =~= self.known@);
        }
        out
    }
}

} // verus!
