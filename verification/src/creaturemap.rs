//! The generational store of creatures and the handles it issues.

use crate::creature::command::Command;
use crate::creature::command::NUM_MAX_GENES;
use crate::creature::Creature;
use crate::creature::CreatureModel;
use vstd::prelude::*;

verus! {

/// Hands out the next stamp of `counter` and advances it.
pub fn get_generation(counter: &mut u64) -> (generation: u64)
    requires
        *old(counter) < u64::MAX,
    ensures
        generation == *old(counter),
        *final(counter) == *old(counter) + 1,
{
    let generation: u64 = *counter;
    *counter = generation + 1;
    generation
}

/// A handle on a creature: the slot it lives in and the stamp it was issued
/// with. Only the stamp identifies it; the slot is where to look.
#[derive(Clone, Copy, PartialEq, Eq, Structural, Debug)]
pub struct CreatureId {
    pub(crate) index: usize,
    pub(crate) generation: u64,
}

impl CreatureId {
    /// The slot this handle points at.
    pub open(crate) spec fn slot(self) -> usize {
        self.index
    }

    /// The stamp this handle was issued with.
    pub open(crate) spec fn stamp(self) -> u64 {
        self.generation
    }

    /// The handle for `slot` with `stamp`.
    pub open(crate) spec fn make(slot: usize, stamp: u64) -> CreatureId {
        CreatureId { index: slot, generation: stamp }
    }

    /// The slot this handle points at.
    pub fn get_index(&self) -> (index: usize)
        ensures
            index == self.slot(),
    {
        self.index
    }

    /// The stamp this handle was issued with.
    pub fn get_stamp(&self) -> (stamp: u64)
        ensures
            stamp == self.stamp(),
    {
        self.generation
    }
}

/// The store: a dense array of slots, a stack of freed slots, and the stamp
/// counter.
pub struct CreatureMap {
    map: Vec<Option<Creature>>,
    free: Vec<usize>,
    next_generation: u64,
}

/// What a `CreatureMap` is.
pub struct CreatureMapModel {
    /// The slots, each empty or holding a creature.
    pub slots: Seq<Option<CreatureModel>>,
    /// The freed slots, last freed last.
    pub free: Seq<usize>,
    /// How many stamps have been issued; also the next stamp.
    pub issued: u64,
}

/// What a slot holds.
pub open spec fn slot_view(slot: Option<Creature>) -> Option<CreatureModel> {
    match slot {
        Some(c) => Some(c@),
        None => None,
    }
}

/// What an array of slots holds.
pub open spec fn slots_view(slots: Seq<Option<Creature>>) -> Seq<Option<CreatureModel>> {
    slots.map_values(|slot: Option<Creature>| slot_view(slot))
}

/// Writing a slot and then viewing is viewing and then writing the view.
proof fn lemma_slots_view_update(slots: Seq<Option<Creature>>, i: int, slot: Option<Creature>)
    requires
        0 <= i < slots.len(),
    ensures
        slots_view(slots.update(i, slot)) == slots_view(slots).update(i, slot_view(slot)),
{
    assert(slots_view(slots.update(i, slot)) =~= slots_view(slots).update(i, slot_view(slot)));
}

/// Energy held in one slot.
pub open spec fn slot_energy(slot: Option<CreatureModel>) -> nat {
    match slot {
        Some(c) => c.stats.energy as nat,
        None => 0nat,
    }
}

/// Sum of the energy of the creatures in `slots`.
pub open spec fn total_energy(slots: Seq<Option<CreatureModel>>) -> nat
    decreases slots.len(),
{
    if slots.len() == 0 {
        0
    } else {
        total_energy(slots.drop_last()) + slot_energy(slots.last())
    }
}

/// Replacing one slot changes the total energy by the difference of the two.
pub proof fn lemma_total_energy_update(
    slots: Seq<Option<CreatureModel>>,
    i: int,
    slot: Option<CreatureModel>,
)
    requires
        0 <= i < slots.len(),
    ensures
        total_energy(slots.update(i, slot)) == total_energy(slots) - slot_energy(slots[i])
            + slot_energy(slot),
        slot_energy(slots[i]) <= total_energy(slots),
    decreases slots.len(),
{
    let updated = slots.update(i, slot);
    if i == slots.len() - 1 {
        assert(updated.drop_last() =~= slots.drop_last());
    } else {
        lemma_total_energy_update(slots.drop_last(), i, slot);
        assert(updated.drop_last() =~= slots.drop_last().update(i, slot));
    }
}

/// A new slot adds its energy to the total.
pub proof fn lemma_total_energy_push(slots: Seq<Option<CreatureModel>>, slot: Option<CreatureModel>)
    ensures
        total_energy(slots.push(slot)) == total_energy(slots) + slot_energy(slot),
{
    assert(slots.push(slot).drop_last() =~= slots);
}

impl CreatureMapModel {
    /// Every freed slot exists and is empty, none is listed twice, and the
    /// slots can be counted.
    pub open spec fn wf(self) -> bool {
        &&& self.slots.len() <= usize::MAX
        &&& forall|k: int|
            0 <= k < self.free.len() ==> (#[trigger] self.free[k]) < self.slots.len()
                && self.slots[self.free[k] as int] is None
        &&& forall|j: int, k: int|
            0 <= j < k < self.free.len() ==> self.free[j] != self.free[k]
    }

    /// The creature that `id` stands for: the one in its slot, if the slot
    /// exists, is filled, and holds a creature with this very handle.
    pub open spec fn resolve(self, id: CreatureId) -> Option<CreatureModel> {
        if id.slot() < self.slots.len() && self.slots[id.slot() as int] is Some
            && self.slots[id.slot() as int]->0.stats.id == id {
            self.slots[id.slot() as int]
        } else {
            None
        }
    }

    /// The same store with slot `index` replaced.
    pub open spec fn with_slot(self, index: int, slot: Option<CreatureModel>) -> CreatureMapModel {
        CreatureMapModel { slots: self.slots.update(index, slot), ..self }
    }

    /// The handle stored in slot `index`, if the slot exists and is filled.
    pub open spec fn handle_at(self, index: usize) -> Option<CreatureId> {
        if index < self.slots.len() && self.slots[index as int] is Some {
            Some(self.slots[index as int]->0.stats.id)
        } else {
            None
        }
    }

    /// The handle that the next allocation returns.
    pub open spec fn next_handle(self) -> CreatureId {
        if self.free.len() > 0 {
            CreatureId::make(self.free.last(), self.issued)
        } else {
            CreatureId::make(self.slots.len() as usize, self.issued)
        }
    }

    /// The store after an allocation: the last freed slot leaves the free
    /// list, or a new empty slot is appended; one more stamp is issued.
    pub open spec fn allocate(self) -> CreatureMapModel {
        if self.free.len() > 0 {
            CreatureMapModel {
                free: self.free.drop_last(),
                issued: (self.issued + 1) as u64,
                ..self
            }
        } else {
            CreatureMapModel {
                slots: self.slots.push(None),
                issued: (self.issued + 1) as u64,
                ..self
            }
        }
    }

    /// The store after `deallocate(id)`: unchanged if `id` does not
    /// resolve; else its slot is emptied and pushed on the free list.
    pub open spec fn deallocate(self, id: CreatureId) -> CreatureMapModel {
        if self.resolve(id) is Some {
            CreatureMapModel {
                slots: self.slots.update(id.slot() as int, None),
                free: self.free.push(id.slot()),
                ..self
            }
        } else {
            self
        }
    }

    /// The store after `set_creature(id, creature)`: the slot of `id`, if
    /// it exists, holds `creature`, whatever it held.
    pub open spec fn set(self, id: CreatureId, creature: CreatureModel) -> CreatureMapModel {
        if id.slot() < self.slots.len() {
            CreatureMapModel { slots: self.slots.update(id.slot() as int, Some(creature)), ..self }
        } else {
            self
        }
    }

    /// The store after the creature of `id` was taken out for its turn: its
    /// slot is empty but stays reserved.
    pub open spec fn take(self, id: CreatureId) -> CreatureMapModel {
        if self.resolve(id) is Some {
            CreatureMapModel { slots: self.slots.update(id.slot() as int, None), ..self }
        } else {
            self
        }
    }

    /// The store after `add_creature(x, y, genes)`.
    pub open spec fn add(self, x: u32, y: u32, genes: Seq<Command>) -> CreatureMapModel {
        self.allocate().set(
            self.next_handle(),
            CreatureModel::newborn(self.next_handle(), x, y, genes),
        )
    }

    /// Every stored creature carries a stamp that was issued.
    pub open spec fn stamps_issued(self) -> bool {
        forall|i: int|
            0 <= i < self.slots.len() && (#[trigger] self.slots[i]) is Some
                ==> self.slots[i]->0.stats.id.stamp() < self.issued
    }
}

/// A handle that was deallocated no longer resolves, and deallocating it
/// again changes nothing.
pub proof fn lemma_stale_handle_rejected(store: CreatureMapModel, id: CreatureId)
    requires
        store.resolve(id) is Some,
    ensures
        store.deallocate(id).resolve(id) is None,
        store.deallocate(id).deallocate(id) == store.deallocate(id),
{
}

/// A handle whose slot was freed and filled again under a new handle does
/// not resolve either.
pub proof fn lemma_reused_slot_rejects_stale(
    store: CreatureMapModel,
    id: CreatureId,
    x: u32,
    y: u32,
    genes: Seq<Command>,
)
    requires
        store.wf(),
        store.stamps_issued(),
        store.resolve(id) is Some,
        store.issued < u64::MAX,
    ensures
        store.deallocate(id).next_handle().slot() == id.slot(),
        store.deallocate(id).next_handle() != id,
        store.deallocate(id).add(x, y, genes).resolve(id) is None,
        store.deallocate(id).add(x, y, genes).resolve(store.deallocate(id).next_handle()) is Some,
{
}

/// One operation on a store.
pub enum StoreOp {
    /// `allocate()`.
    Allocate,
    /// `deallocate(id)`.
    Deallocate(CreatureId),
    /// `set_creature(id, creature)`.
    Put(CreatureId, CreatureModel),
    /// `move_creature(id)`.
    Take(CreatureId),
    /// `add_creature(x, y, genes)`.
    Add(u32, u32, Seq<Command>),
}

/// The store after one operation.
pub open spec fn applied(store: CreatureMapModel, op: StoreOp) -> CreatureMapModel {
    match op {
        StoreOp::Allocate => store.allocate(),
        StoreOp::Deallocate(id) => store.deallocate(id),
        StoreOp::Put(id, creature) => store.set(id, creature),
        StoreOp::Take(id) => store.take(id),
        StoreOp::Add(x, y, genes) => store.add(x, y, genes),
    }
}

/// The store after the first `n` of the operations `ops`.
pub open spec fn replayed(store: CreatureMapModel, ops: Seq<StoreOp>, n: nat) -> CreatureMapModel
    decreases n,
{
    if n == 0 {
        store
    } else {
        applied(replayed(store, ops, (n - 1) as nat), ops[n - 1])
    }
}

/// Along any history the number of stamps issued never falls, and it is at
/// most the number of operations above where it started.
pub proof fn lemma_history_counts_stamps(
    store: CreatureMapModel,
    ops: Seq<StoreOp>,
    m: nat,
    n: nat,
)
    requires
        m <= n <= ops.len(),
        store.issued + ops.len() <= u64::MAX,
    ensures
        replayed(store, ops, m).issued <= replayed(store, ops, n).issued,
        replayed(store, ops, n).issued <= store.issued + n,
    decreases n,
{
    if n > 0 {
        if m < n {
            lemma_history_counts_stamps(store, ops, m, (n - 1) as nat);
        } else {
            lemma_history_counts_stamps(store, ops, (n - 1) as nat, (n - 1) as nat);
        }
    }
}

/// Of all the handles that one store ever issues, no two carry the same
/// stamp, whatever is done to the store between the two allocations and
/// whether or not they use the same slot.
pub proof fn lemma_issued_handles_distinct(
    store: CreatureMapModel,
    ops: Seq<StoreOp>,
    j: nat,
    k: nat,
)
    requires
        j < k < ops.len(),
        ops[j as int] is Allocate || ops[j as int] is Add,
        ops[k as int] is Allocate || ops[k as int] is Add,
        store.issued + ops.len() <= u64::MAX,
    ensures
        replayed(store, ops, j).next_handle().stamp() != replayed(
            store,
            ops,
            k,
        ).next_handle().stamp(),
{
    lemma_history_counts_stamps(store, ops, j, j);
    lemma_history_counts_stamps(store, ops, j + 1, k);
    assert(replayed(store, ops, j + 1) == applied(replayed(store, ops, j), ops[j as int]));
}

/// The operation does not store a creature that carries the handle `id`.
pub open spec fn keeps_out(op: StoreOp, id: CreatureId) -> bool {
    match op {
        StoreOp::Put(_, creature) => creature.stats.id != id,
        _ => true,
    }
}

/// A handle that the store issued and that was deallocated stays stale:
/// whatever is allocated, added, taken out, stored under other handles or
/// deallocated afterwards, it never resolves again, and deallocating it again
/// changes nothing.
pub proof fn lemma_stale_handle_stays_rejected(
    store: CreatureMapModel,
    id: CreatureId,
    ops: Seq<StoreOp>,
    n: nat,
)
    requires
        store.resolve(id) is Some,
        id.stamp() < store.issued,
        n <= ops.len(),
        forall|k: int| 0 <= k < ops.len() ==> keeps_out(#[trigger] ops[k], id),
        store.issued + ops.len() <= u64::MAX,
    ensures
        replayed(store.deallocate(id), ops, n).resolve(id) is None,
        replayed(store.deallocate(id), ops, n).deallocate(id) == replayed(
            store.deallocate(id),
            ops,
            n,
        ),
    decreases n,
{
    if n > 0 {
        let m = (n - 1) as nat;
        lemma_stale_handle_stays_rejected(store, id, ops, m);
        lemma_history_counts_stamps(store.deallocate(id), ops, 0, m);
        assert(keeps_out(ops[m as int], id));
    }
}

impl CreatureMap {
    /// The slots, the free list and the stamp counter of this store.
    pub closed spec fn view(&self) -> CreatureMapModel {
        CreatureMapModel {
            slots: slots_view(self.map@),
            free: self.free@,
            issued: self.next_generation,
        }
    }

    /// An empty store that has issued no stamp.
    pub fn new() -> (store: CreatureMap)
        ensures
            store@.slots.len() == 0,
            store@.free.len() == 0,
            store@.issued == 0,
            store@.wf(),
    {
        CreatureMap { map: Vec::new(), free: Vec::new(), next_generation: 0 }
    }

    /// Number of slots, filled or not.
    pub fn get_num(&self) -> (count: usize)
        ensures
            count == self@.slots.len(),
    {
        self.map.len()
    }

    /// Number of stamps issued so far.
    pub fn get_issued(&self) -> (issued: u64)
        ensures
            issued == self@.issued,
    {
        self.next_generation
    }

    /// The handle of the creature in slot `index`, if there is one.
    pub fn get_creatureid_by_index(&self, index: usize) -> (id: Option<CreatureId>)
        ensures
            id == self@.handle_at(index),
    {
        if index >= self.map.len() {
            return None;
        }
        match &self.map[index] {
            Some(c) => Some(c.get_id()),
            None => None,
        }
    }

    /// Reserves a slot and stamps a handle for it: the last freed slot if
    /// there is one, else a new one. The slot stays empty.
    pub fn allocate(&mut self) -> (id: CreatureId)
        requires
            old(self)@.issued < u64::MAX,
        ensures
            id == old(self)@.next_handle(),
            final(self)@ == old(self)@.allocate(),
            id.stamp() == old(self)@.issued,
            old(self)@.free.len() == 0 ==> id.slot() == old(self)@.slots.len(),
            old(self)@.wf() ==> final(self)@.wf(),
    {
        let generation = get_generation(&mut self.next_generation);
        let index: usize;
        if self.free.len() != 0 {
            index = self.free.pop().unwrap();
        } else {
            index = self.map.len();
            self.map.push(None);
        }
        proof {
            assert(self@.slots =~= old(self)@.allocate().slots);
            assert(self@.free =~= old(self)@.allocate().free);
            if old(self)@.wf() {
                assert forall|k: int| 0 <= k < self@.free.len() implies (#[trigger] self@.free[k])
                    < self@.slots.len() && self@.slots[self@.free[k] as int] is None by {
                    assert(self@.free[k] == old(self)@.free[k]);
                }
                assert forall|j: int, k: int| 0 <= j < k < self@.free.len() implies self@.free[j]
                    != self@.free[k] by {
                    assert(self@.free[j] == old(self)@.free[j]);
                    assert(self@.free[k] == old(self)@.free[k]);
                }
                assert(self.map@.len() == self.map.len());
            }
        }
        CreatureId { index, generation }
    }

    /// Frees the slot of `id` if `id` resolves, and says whether it did.
    pub fn deallocate(&mut self, id: CreatureId) -> (freed: bool)
        ensures
            freed == old(self)@.resolve(id) is Some,
            final(self)@ == old(self)@.deallocate(id),
            old(self)@.wf() ==> final(self)@.wf(),
    {
        let index = id.get_index();
        if index >= self.map.len() {
            return false;
        }
        let found = match &self.map[index] {
            Some(c) => c.get_id() == id,
            None => false,
        };
        if found {
            self.free.push(index);
            self.map[index] = None;
            proof {
                assert(self@.slots =~= old(self)@.deallocate(id).slots);
            }
            true
        } else {
            false
        }
    }

    /// The creature that `id` stands for, if it resolves.
    pub fn get_creature(&self, id: CreatureId) -> (found: Option<&Creature>)
        ensures
            match found {
                Some(c) => self@.resolve(id) == Some(c@),
                None => self@.resolve(id) is None,
            },
    {
        let index = id.get_index();
        if index >= self.map.len() {
            return None;
        }
        match &self.map[index] {
            Some(c) => {
                if c.get_id() == id {
                    return Some(c);
                }
                None
            },
            None => None,
        }
    }

    /// The creature that `id` stands for, for writing: the store afterwards
    /// differs from the store before in that creature alone.
    pub fn get_creature_mut(&mut self, id: CreatureId) -> (found: Option<&mut Creature>)
        ensures
            match found {
                Some(c) => old(self)@.resolve(id) == Some(c@) && final(self)@ == old(
                    self,
                )@.with_slot(id.slot() as int, Some(final(c)@)),
                None => old(self)@.resolve(id) is None && final(self)@ == old(self)@,
            },
            old(self)@.wf() ==> final(self)@.wf(),
    {
        let index = id.get_index();
        if index >= self.map.len() {
            return None;
        }
        let present = match &self.map[index] {
            Some(c) => c.get_id() == id,
            None => false,
        };
        if !present {
            return None;
        }
        let ghost before = self.map@;
        let slot: &mut Option<Creature> = &mut self.map[index];
        match slot {
            Some(c) => {
                proof {
                    lemma_slots_view_update(before, index as int, Some(*final(c)));
                }
                Some(c)
            },
            None => None,
        }
    }

    /// Puts `creat` into the slot of `id`, if the slot exists.
    pub fn set_creature(&mut self, id: CreatureId, creat: Creature)
        ensures
            final(self)@ == old(self)@.set(id, creat@),
            old(self)@.wf() && (forall|k: int|
                0 <= k < old(self)@.free.len() ==> (#[trigger] old(self)@.free[k]) != id.slot())
                ==> final(self)@.wf(),
    {
        let index = id.get_index();
        if index >= self.map.len() {
            return ;
        }
        self.map[index] = Some(creat);
        proof {
            assert(self@.slots =~= old(self)@.set(id, creat@).slots);
        }
    }

    /// Allocates a handle and stores a newborn at `(x, y)` under it.
    pub fn add_creature(&mut self, x: u32, y: u32, gene: Vec<Command>) -> (id: CreatureId)
        requires
            1 <= gene@.len() <= NUM_MAX_GENES,
            old(self)@.issued < u64::MAX,
        ensures
            CreatureModel::newborn(id, x, y, gene@).wf(),
            old(self)@.wf() ==> final(self)@.resolve(id) == Some(
                CreatureModel::newborn(id, x, y, gene@),
            ),
            id == old(self)@.next_handle(),
            final(self)@ == old(self)@.add(x, y, gene@),
            id.stamp() == old(self)@.issued,
            old(self)@.free.len() == 0 ==> id.slot() == old(self)@.slots.len(),
            old(self)@.wf() ==> final(self)@.wf(),
    {
        let id = self.allocate();
        proof {
            if old(self)@.free.len() > 0 {
                assert(old(self)@.free[old(self)@.free.len() - 1] == id.slot());
            }
        }
        self.set_creature(id, Creature::new(id, x, y, gene));
        id
    }

    /// Takes the creature of `id` out of the store for its turn; its slot
    /// stays reserved for it.
    pub fn move_creature(&mut self, id: CreatureId) -> (taken: Option<Creature>)
        ensures
            match taken {
                Some(c) => old(self)@.resolve(id) == Some(c@),
                None => old(self)@.resolve(id) is None,
            },
            final(self)@ == old(self)@.take(id),
            old(self)@.wf() ==> final(self)@.wf(),
    {
        let index = id.get_index();
        if index >= self.map.len() {
            return None;
        }
        let found = match &self.map[index] {
            Some(c) => c.get_id() == id,
            None => false,
        };
        if found {
            let taken = self.map[index].take();
            proof {
                assert(self@.slots =~= old(self)@.take(id).slots);
            }
            taken
        } else {
            None
        }
    }
}

} // verus!
