//! The client registry: the consumers that are connected now, by session id, each
//! with the handle of its outbound queue and its tier.

use std::collections::HashMap;
use vstd::prelude::*;
use vstd::std_specs::hash::*;
use vstd::std_specs::iter::IteratorSpec;
use crate::tier::Tier;

verus! {

broadcast use group_hash_axioms;

/// What the registry keeps of one consumer.
#[derive(Debug)]
pub struct Entry<H> {
    /// Where events for the consumer are enqueued.
    pub handle: H,
    /// What the consumer subscribed to.
    pub tier: Tier,
}

/// One consumer as a snapshot shows it.
#[derive(Debug)]
pub struct Peer<H> {
    /// The id of the consumer's session.
    pub id: u128,
    /// A clone of the registered handle.
    pub handle: H,
    /// The registered tier.
    pub tier: Tier,
}

/// The registry. Its value is the map from session id to entry, so there is at most
/// one entry per id.
#[derive(Debug)]
pub struct Registry<H> {
    entries: HashMap<u128, Entry<H>>,
}

impl<H> View for Registry<H> {
    type V = Map<u128, Entry<H>>;

    closed spec fn view(&self) -> Map<u128, Entry<H>> {
        self.entries@
    }
}

/// The map after an attempt to register `entry` under `id`: unchanged where `id` is
/// taken, else with the new entry.
pub open spec fn registered<H>(m: Map<u128, Entry<H>>, id: u128, entry: Entry<H>) -> Map<
    u128,
    Entry<H>,
> {
    if m.contains_key(id) {
        m
    } else {
        m.insert(id, entry)
    }
}

/// What enrolling answers where `drawn` is the id that was drawn: the id where it
/// was free, nothing where it was taken.
pub open spec fn enrolled_under<H>(m: Map<u128, Entry<H>>, drawn: u128) -> Option<u128> {
    if m.contains_key(drawn) {
        None
    } else {
        Some(drawn)
    }
}

/// The map after `id` is deregistered.
pub open spec fn deregistered<H>(m: Map<u128, Entry<H>>, id: u128) -> Map<u128, Entry<H>> {
    m.remove(id)
}

/// Whether `peers` shows `m` at one point in time: one peer per entry, each with the
/// entry's id and tier and a clone of its handle, and no id twice.
pub open spec fn is_snapshot<H: Clone>(peers: Seq<Peer<H>>, m: Map<u128, Entry<H>>) -> bool {
    &&& peers.len() == m.len()
    &&& forall|i: int|
        0 <= i < peers.len() ==> {
            &&& m.contains_key(#[trigger] peers[i].id)
            &&& peers[i].tier == m[peers[i].id].tier
            &&& cloned(m[peers[i].id].handle, peers[i].handle)
        }
    &&& forall|i: int, j: int|
        0 <= i < j < peers.len() ==> (#[trigger] peers[i]).id != (#[trigger] peers[j]).id
    &&& forall|id: u128| #[trigger]
        m.contains_key(id) ==> exists|i: int| 0 <= i < peers.len() && (#[trigger] peers[i]).id == id
}

/// Draws a random version-4 UUID with `uuid::Uuid::new_v4` and hands it out as the
/// 128-bit number that `as_u128` gives. Nothing is promised of the number.
#[verifier::external_body]
pub(crate) fn fresh_id() -> (id: u128) {
    uuid::Uuid::new_v4().as_u128()
}

impl<H> Registry<H> {
    /// A registry without entries.
    pub fn new() -> (registry: Self)
        ensures
            registry@ == Map::<u128, Entry<H>>::empty(),
    {
        Registry { entries: HashMap::new() }
    }

    /// The number of entries.
    pub fn len(&self) -> (n: usize)
        ensures
            n == self@.len(),
    {
        self.entries.len()
    }

    /// Whether `id` is registered.
    pub fn contains(&self, id: u128) -> (r: bool)
        ensures
            r == self@.contains_key(id),
    {
        self.entries.contains_key(&id)
    }

    /// The tier that `id` is registered with.
    pub fn tier_of(&self, id: u128) -> (tier: Option<Tier>)
        ensures
            tier == (if self@.contains_key(id) {
                Some(self@[id].tier)
            } else {
                None
            }),
    {
        match self.entries.get(&id) {
            Some(entry) => Some(entry.tier),
            None => None,
        }
    }

    /// Registers a consumer under `id`. Where `id` is taken nothing changes and the
    /// answer is `false`; the handle is dropped.
    pub fn register(&mut self, id: u128, tier: Tier, handle: H) -> (inserted: bool)
        ensures
            inserted == !old(self)@.contains_key(id),
            final(self)@ == registered(old(self)@, id, Entry { handle, tier }),
    {
        if self.entries.contains_key(&id) {
            false
        } else {
            self.entries.insert(id, Entry { handle, tier });
            true
        }
    }

    /// Removes the entry of `id` where there is one, and says whether there was.
    /// Every other entry stays as it is.
    pub fn deregister(&mut self, id: u128) -> (removed: bool)
        ensures
            removed == old(self)@.contains_key(id),
            final(self)@ == deregistered(old(self)@, id),
    {
        self.entries.remove(&id).is_some()
    }

    /// Admits a consumer under a freshly drawn id and returns the id. Which id is
    /// drawn is left open; the outcome is that of registering under it. So the
    /// consumer is entered under the id where the id was free, and where the id
    /// drawn is taken already, nothing changes and the answer is `None`. That can
    /// only happen where the registry has entries: into an empty registry every
    /// consumer is admitted.
    pub fn enroll(&mut self, tier: Tier, handle: H) -> (id: Option<u128>)
        ensures
            exists|drawn: u128|
                id == #[trigger] enrolled_under(old(self)@, drawn) && final(self)@ == registered(
                    old(self)@,
                    drawn,
                    Entry { handle, tier },
                ),
            match id {
                Some(id) => !old(self)@.contains_key(id) && final(self)@ == old(self)@.insert(
                    id,
                    Entry { handle, tier },
                ),
                None => final(self)@ == old(self)@ && old(self)@.len() > 0,
            },
    {
        let drawn = fresh_id();
        let inserted = self.register(drawn, tier, handle);
        proof {
            assert(final(self)@ == registered(old(self)@, drawn, Entry { handle, tier }));
            if !inserted {
                assert(old(self)@.dom().contains(drawn));
                assert(old(self).entries@.dom().finite());
                vstd::set_lib::lemma_set_empty_equivalency_len(old(self)@.dom());
            }
        }
        if inserted {
            assert(enrolled_under(old(self)@, drawn) == Some(drawn));
            Some(drawn)
        } else {
            assert(enrolled_under(old(self)@, drawn) == None::<u128>);
            None
        }
    }
}

impl<H: Clone> Registry<H> {
    /// A point-in-time copy of the entries, in no particular order. The handles are
    /// cloned, so the copy can be used after the registry has changed.
    pub fn snapshot(&self) -> (peers: Vec<Peer<H>>)
        ensures
            is_snapshot(peers@, self@),
    {
        let mut peers: Vec<Peer<H>> = Vec::new();
        for pair in it: self.entries.iter()
            invariant
                it.seq() == spec_hash_map_iter(&self.entries).remaining(),
                it.seq().no_duplicates(),
                peers.len() == it.index(),
                forall|j: int|
                    0 <= j < peers.len() ==> {
                        &&& (#[trigger] peers@[j]).id == *it.seq()[j].0
                        &&& peers@[j].tier == it.seq()[j].1.tier
                        &&& cloned(it.seq()[j].1.handle, peers@[j].handle)
                    },
        {
            let (id, entry) = pair;
            peers.push(Peer { id: *id, handle: entry.handle.clone(), tier: entry.tier });
        }
        proof {
            let all = spec_hash_map_iter(&self.entries).remaining();
            let m = self.entries@;
            assert forall|i: int, j: int| 0 <= i < j < peers.len() implies (#[trigger] peers@[i]).id
                != (#[trigger] peers@[j]).id by {
                if peers@[i].id == peers@[j].id {
                    assert(m[*all[i].0] == *all[i].1);
                    assert(m[*all[j].0] == *all[j].1);
                    assert(all[i] == all[j]);
                }
            }
            assert forall|id: u128| #[trigger] m.contains_key(id) implies exists|i: int|
                0 <= i < peers.len() && (#[trigger] peers@[i]).id == id by {
                assert(all.contains((&id, &m[id])));
                let i = choose|i: int| 0 <= i < all.len() && all[i] == (&id, &m[id]);
                assert(peers@[i].id == id);
            }
        }
        peers
    }
}

/// Deregistering is idempotent, does nothing for an id that has no entry, and
/// leaves every other entry as it was.
pub proof fn lemma_deregister_idempotent<H>(m: Map<u128, Entry<H>>, id: u128)
    ensures
        deregistered(deregistered(m, id), id) == deregistered(m, id),
        !m.contains_key(id) ==> deregistered(m, id) == m,
        !deregistered(m, id).contains_key(id),
        forall|other: u128|
            other != id ==> (deregistered(m, id).contains_key(other) <==> m.contains_key(other))
                && (m.contains_key(other) ==> deregistered(m, id)[other] == m[other]),
{
    assert(deregistered(deregistered(m, id), id) =~= deregistered(m, id));
    if !m.contains_key(id) {
        assert(deregistered(m, id) =~= m);
    }
}

/// Registering changes nothing but the entry of its id, and that one only where
/// the id was free.
pub proof fn lemma_register_is_local<H>(m: Map<u128, Entry<H>>, id: u128, entry: Entry<H>)
    ensures
        registered(m, id, entry).contains_key(id),
        m.contains_key(id) ==> registered(m, id, entry) == m,
        !m.contains_key(id) ==> registered(m, id, entry)[id] == entry,
        forall|other: u128|
            other != id ==> (registered(m, id, entry).contains_key(other) <==> m.contains_key(
                other,
            )) && (m.contains_key(other) ==> registered(m, id, entry)[other] == m[other]),
{
}

/// One operation on the registry, as a value.
pub enum RegistryOp<H> {
    Register { id: u128, entry: Entry<H> },
    Deregister { id: u128 },
    Snapshot,
}

/// The map after one operation.
pub open spec fn applied<H>(m: Map<u128, Entry<H>>, op: RegistryOp<H>) -> Map<u128, Entry<H>> {
    match op {
        RegistryOp::Register { id, entry } => registered(m, id, entry),
        RegistryOp::Deregister { id } => deregistered(m, id),
        RegistryOp::Snapshot => m,
    }
}

/// The map after a run of operations, in the order in which they took effect.
pub open spec fn applied_all<H>(m: Map<u128, Entry<H>>, ops: Seq<RegistryOp<H>>) -> Map<
    u128,
    Entry<H>,
>
    decreases ops.len(),
{
    if ops.len() == 0 {
        m
    } else {
        applied(applied_all(m, ops.drop_last()), ops.last())
    }
}

/// Whether `op` registers `id`.
pub open spec fn registers<H>(op: RegistryOp<H>, id: u128) -> bool {
    op matches RegistryOp::Register { id: target, .. } && target == id
}

/// Whether `op` deregisters `id`.
pub open spec fn deregisters<H>(op: RegistryOp<H>, id: u128) -> bool {
    op matches RegistryOp::Deregister { id: target } && target == id
}

/// No entry is lost: whatever else is registered, deregistered or read meanwhile,
/// an entry that no operation of the run deregisters is there after the run,
/// unchanged.
pub proof fn lemma_untouched_entry_survives<H>(
    m: Map<u128, Entry<H>>,
    ops: Seq<RegistryOp<H>>,
    id: u128,
)
    requires
        m.contains_key(id),
        forall|i: int| 0 <= i < ops.len() ==> !deregisters(#[trigger] ops[i], id),
    ensures
        applied_all(m, ops).contains_key(id),
        applied_all(m, ops)[id] == m[id],
    decreases ops.len(),
{
    if ops.len() > 0 {
        let front = ops.drop_last();
        assert forall|i: int| 0 <= i < front.len() implies !deregisters(#[trigger] front[i], id) by {
            assert(front[i] == ops[i]);
        }
        lemma_untouched_entry_survives(m, front, id);
        assert(!deregisters(ops[ops.len() - 1], id));
    }
}

/// No entry outlives its removal: once an operation of the run has deregistered
/// `id` and none after it registers `id` again, `id` has no entry after the run.
pub proof fn lemma_removed_entry_stays_out<H>(
    m: Map<u128, Entry<H>>,
    ops: Seq<RegistryOp<H>>,
    id: u128,
    at: int,
)
    requires
        0 <= at < ops.len(),
        deregisters(ops[at], id),
        forall|i: int| at < i < ops.len() ==> !registers(#[trigger] ops[i], id),
    ensures
        !applied_all(m, ops).contains_key(id),
    decreases ops.len(),
{
    let front = ops.drop_last();
    if at < ops.len() - 1 {
        assert(front[at] == ops[at]);
        assert forall|i: int| at < i < front.len() implies !registers(#[trigger] front[i], id) by {
            assert(front[i] == ops[i]);
        }
        lemma_removed_entry_stays_out(m, front, id, at);
        assert(!registers(ops[ops.len() - 1], id));
    }
}

/// Entries come from registration only: an id without an entry before a run that
/// never registers it has none after the run.
pub proof fn lemma_unregistered_id_stays_out<H>(
    m: Map<u128, Entry<H>>,
    ops: Seq<RegistryOp<H>>,
    id: u128,
)
    requires
        !m.contains_key(id),
        forall|i: int| 0 <= i < ops.len() ==> !registers(#[trigger] ops[i], id),
    ensures
        !applied_all(m, ops).contains_key(id),
    decreases ops.len(),
{
    if ops.len() > 0 {
        let front = ops.drop_last();
        assert forall|i: int| 0 <= i < front.len() implies !registers(#[trigger] front[i], id) by {
            assert(front[i] == ops[i]);
        }
        lemma_unregistered_id_stays_out(m, front, id);
        assert(!registers(ops[ops.len() - 1], id));
    }
}

} // verus!
