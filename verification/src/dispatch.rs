//! The broadcast dispatcher: which of the connected consumers an event goes to.

use vstd::prelude::*;
use crate::classifier::CriticalSet;
use crate::event::Event;
use crate::registry::{Entry, Peer, Registry, is_snapshot};
use crate::tier::Tier;

verus! {

/// The test that a peer's tier lets an event of the given criticality through.
pub open spec fn eligible<H>(critical: bool) -> spec_fn(Peer<H>) -> bool {
    |peer: Peer<H>| peer.tier.spec_admits(critical)
}

/// Whether `chosen` is what an event of the given criticality goes to among the
/// entries of `m`: one peer for each entry whose tier lets the event through and
/// for no other, each with the entry's id and tier and a clone of its handle, and
/// no id twice.
pub open spec fn is_selection<H: Clone>(
    chosen: Seq<Peer<H>>,
    m: Map<u128, Entry<H>>,
    critical: bool,
) -> bool {
    &&& forall|i: int|
        0 <= i < chosen.len() ==> {
            &&& m.contains_key(#[trigger] chosen[i].id)
            &&& chosen[i].tier == m[chosen[i].id].tier
            &&& chosen[i].tier.spec_admits(critical)
            &&& cloned(m[chosen[i].id].handle, chosen[i].handle)
        }
    &&& forall|i: int, j: int|
        0 <= i < j < chosen.len() ==> (#[trigger] chosen[i]).id != (#[trigger] chosen[j]).id
    &&& forall|id: u128|
        #![trigger m.contains_key(id)]
        m.contains_key(id) && m[id].tier.spec_admits(critical) ==> exists|i: int|
            0 <= i < chosen.len() && (#[trigger] chosen[i]).id == id
}

/// Keeps, in their order, the peers whose tier lets an event of the given
/// criticality through: every peer of tier `All`, and those of tier `ImportantOnly`
/// where the event is critical.
pub fn dispatch<H>(peers: Vec<Peer<H>>, critical: bool) -> (chosen: Vec<Peer<H>>)
    ensures
        chosen@ == peers@.filter(eligible::<H>(critical)),
{
    let mut chosen: Vec<Peer<H>> = Vec::new();
    let ghost all = peers@;
    proof {
        reveal(Seq::filter);
        assert(all.take(0) =~= Seq::<Peer<H>>::empty());
    }
    for peer in it: peers.into_iter()
        invariant
            it.seq() == all,
            chosen@ == all.take(it.index() as int).filter(eligible::<H>(critical)),
    {
        proof {
            reveal(Seq::filter);
            let upto = all.take(it.index() + 1);
            assert(upto.drop_last() =~= all.take(it.index() as int));
            assert(upto.last() == peer);
        }
        if peer.tier.admits(critical) {
            chosen.push(peer);
        }
    }
    assert(all.take(all.len() as int) =~= all);
    chosen
}

/// Whether no two peers of a list share an id.
pub open spec fn distinct_ids<H>(peers: Seq<Peer<H>>) -> bool {
    forall|i: int, j: int|
        0 <= i < j < peers.len() ==> (#[trigger] peers[i]).id != (#[trigger] peers[j]).id
}

/// What `dispatch` keeps of a list: only peers of the list that pass the test, all
/// of those, and no id twice where the list has none twice.
pub proof fn lemma_kept_peers<H>(peers: Seq<Peer<H>>, critical: bool)
    ensures
        ({
            let kept = peers.filter(eligible::<H>(critical));
            &&& forall|i: int|
                0 <= i < kept.len() ==> (#[trigger] kept[i]).tier.spec_admits(critical)
                    && peers.contains(kept[i])
            &&& forall|k: int|
                0 <= k < peers.len() && (#[trigger] peers[k]).tier.spec_admits(critical)
                    ==> kept.contains(peers[k])
            &&& distinct_ids(peers) ==> distinct_ids(kept)
        }),
    decreases peers.len(),
{
    reveal(Seq::filter);
    let pred = eligible::<H>(critical);
    let kept = peers.filter(pred);
    if peers.len() > 0 {
        let front = peers.drop_last();
        let last = peers.last();
        let kept_front = front.filter(pred);
        lemma_kept_peers(front, critical);
        assert forall|i: int| 0 <= i < kept.len() implies (#[trigger] kept[i]).tier.spec_admits(
            critical,
        ) && peers.contains(kept[i]) by {
            if i < kept_front.len() {
                assert(kept[i] == kept_front[i]);
                assert(front.contains(kept_front[i]));
                let k = choose|k: int| 0 <= k < front.len() && front[k] == kept_front[i];
                assert(peers[k] == kept[i]);
            } else {
                assert(peers[peers.len() - 1] == kept[i]);
            }
        }
        assert forall|k: int|
            0 <= k < peers.len() && (#[trigger] peers[k]).tier.spec_admits(
                critical,
            ) implies kept.contains(peers[k]) by {
            if k < front.len() {
                assert(front[k] == peers[k]);
                assert(kept_front.contains(front[k]));
                let i = choose|i: int| 0 <= i < kept_front.len() && kept_front[i] == front[k];
                assert(kept[i] == peers[k]);
            } else {
                assert(kept[kept.len() - 1] == peers[k]);
            }
        }
        if distinct_ids(peers) {
            assert(distinct_ids(front)) by {
                assert forall|i: int, j: int| 0 <= i < j < front.len() implies (
                #[trigger] front[i]).id != (#[trigger] front[j]).id by {
                    assert(front[i] == peers[i] && front[j] == peers[j]);
                }
            }
            assert forall|i: int, j: int| 0 <= i < j < kept.len() implies (#[trigger] kept[i]).id
                != (#[trigger] kept[j]).id by {
                assert(kept[i] == kept_front[i]);
                if j < kept_front.len() {
                    assert(kept[j] == kept_front[j]);
                } else {
                    assert(kept[j] == last);
                    assert(front.contains(kept_front[i]));
                    let k = choose|k: int| 0 <= k < front.len() && front[k] == kept_front[i];
                    assert(peers[k] == kept[i]);
                    assert(peers[peers.len() - 1] == last);
                }
            }
        }
    }
}

/// What is kept of a snapshot is the selection from the map that the snapshot shows.
pub proof fn lemma_dispatch_selects<H: Clone>(
    peers: Seq<Peer<H>>,
    m: Map<u128, Entry<H>>,
    critical: bool,
)
    requires
        is_snapshot(peers, m),
    ensures
        is_selection(peers.filter(eligible::<H>(critical)), m, critical),
{
    let chosen = peers.filter(eligible::<H>(critical));
    lemma_kept_peers(peers, critical);
    assert forall|i: int| 0 <= i < chosen.len() implies {
        &&& m.contains_key(#[trigger] chosen[i].id)
        &&& chosen[i].tier == m[chosen[i].id].tier
        &&& chosen[i].tier.spec_admits(critical)
        &&& cloned(m[chosen[i].id].handle, chosen[i].handle)
    } by {
        assert(peers.contains(chosen[i]));
        let k = choose|k: int| 0 <= k < peers.len() && peers[k] == chosen[i];
        assert(m.contains_key(peers[k].id));
    }
    assert forall|id: u128|
        #![trigger m.contains_key(id)]
        m.contains_key(id) && m[id].tier.spec_admits(critical) implies exists|i: int|
        0 <= i < chosen.len() && (#[trigger] chosen[i]).id == id by {
        let k = choose|k: int| 0 <= k < peers.len() && (#[trigger] peers[k]).id == id;
        assert(chosen.contains(peers[k]));
        let i = choose|i: int| 0 <= i < chosen.len() && chosen[i] == peers[k];
        assert(chosen[i].id == id);
    }
}

impl<H: Clone> Registry<H> {
    /// The consumers that an event of the given criticality is delivered to, as of
    /// now: a snapshot of the registry, narrowed to the tiers that let the event
    /// through.
    pub fn recipients(&self, critical: bool) -> (chosen: Vec<Peer<H>>)
        ensures
            is_selection(chosen@, self@, critical),
    {
        let peers = self.snapshot();
        proof {
            lemma_dispatch_selects(peers@, self@, critical);
        }
        dispatch(peers, critical)
    }

    /// The consumers that an event is delivered to, as of now: every registered
    /// consumer of tier `All`, and those of tier `ImportantOnly` exactly where the
    /// event's code is in the critical set.
    pub fn recipients_of(&self, event: &Event, critical: &CriticalSet) -> (chosen: Vec<Peer<H>>)
        ensures
            is_selection(chosen@, self@, critical@.contains(event@.code)),
    {
        self.recipients(critical.is_critical(event))
    }
}

/// A critical event goes to every registered consumer, whatever its tier.
pub proof fn lemma_critical_reaches_all<H: Clone>(
    chosen: Seq<Peer<H>>,
    m: Map<u128, Entry<H>>,
    id: u128,
)
    requires
        is_selection(chosen, m, true),
        m.contains_key(id),
    ensures
        exists|i: int| 0 <= i < chosen.len() && (#[trigger] chosen[i]).id == id,
{
    assert(m[id].tier.spec_admits(true));
}

/// A consumer of tier `All` is sent every event, critical or not.
pub proof fn lemma_tier_all_gets_everything<H: Clone>(
    chosen: Seq<Peer<H>>,
    m: Map<u128, Entry<H>>,
    critical: bool,
    id: u128,
)
    requires
        is_selection(chosen, m, critical),
        m.contains_key(id),
        m[id].tier == Tier::All,
    ensures
        exists|i: int| 0 <= i < chosen.len() && (#[trigger] chosen[i]).id == id,
{
    assert(m[id].tier.spec_admits(critical));
}

/// An event that is not critical goes to no consumer of tier `ImportantOnly`.
pub proof fn lemma_noncritical_spares_important<H: Clone>(
    chosen: Seq<Peer<H>>,
    m: Map<u128, Entry<H>>,
    id: u128,
)
    requires
        is_selection(chosen, m, false),
        m.contains_key(id),
        m[id].tier == Tier::ImportantOnly,
    ensures
        forall|i: int| 0 <= i < chosen.len() ==> (#[trigger] chosen[i]).id != id,
{
    assert forall|i: int| 0 <= i < chosen.len() implies (#[trigger] chosen[i]).id != id by {
        if chosen[i].id == id {
            assert(chosen[i].tier == m[chosen[i].id].tier);
            assert(chosen[i].tier.spec_admits(false));
        }
    }
}

} // verus!
