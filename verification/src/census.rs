//! Counting: in a settled world there are as many occupied tiles as there
//! are creatures in the store.

use crate::creature::CreatureModel;
use crate::creaturemap::CreatureMapModel;
use crate::game::active_handles;
use crate::occupancy::claimed;
use crate::occupancy::placed;
use crate::occupancy::settled;
use crate::world::lemma_index_in_range;
use crate::world::lemma_index_injective;
use crate::world::occupied_count;
use crate::world::Tile;
use crate::world::WorldModel;
use vstd::prelude::*;

verus! {

/// The indices of the occupied tiles.
pub open spec fn occupied_indices(tiles: Seq<Tile>) -> Set<int> {
    Set::new(|t: int| 0 <= t < tiles.len() && tiles[t].creature is Some)
}

/// The indices of the filled slots.
pub open spec fn filled_slots(slots: Seq<Option<CreatureModel>>) -> Set<int> {
    Set::new(|i: int| 0 <= i < slots.len() && slots[i] is Some)
}

/// The count of occupied tiles is the size of the set of their indices.
pub proof fn lemma_occupied_count_is_size(tiles: Seq<Tile>)
    ensures
        occupied_indices(tiles).finite(),
        occupied_count(tiles) == occupied_indices(tiles).len(),
    decreases tiles.len(),
{
    if tiles.len() == 0 {
        assert(occupied_indices(tiles) =~= Set::empty());
    } else {
        let shorter = tiles.drop_last();
        let last = tiles.len() - 1;
        lemma_occupied_count_is_size(shorter);
        if tiles.last().creature is Some {
            assert(occupied_indices(tiles) =~= occupied_indices(shorter).insert(last));
        } else {
            assert(occupied_indices(tiles) =~= occupied_indices(shorter));
        }
    }
}

/// The number of handles in the store is the size of the set of its filled
/// slots.
pub proof fn lemma_active_handles_is_size(slots: Seq<Option<CreatureModel>>)
    ensures
        filled_slots(slots).finite(),
        active_handles(slots).len() == filled_slots(slots).len(),
    decreases slots.len(),
{
    if slots.len() == 0 {
        assert(filled_slots(slots) =~= Set::empty());
    } else {
        let shorter = slots.drop_last();
        let last = slots.len() - 1;
        lemma_active_handles_is_size(shorter);
        if slots.last() is Some {
            assert(filled_slots(slots) =~= filled_slots(shorter).insert(last));
        } else {
            assert(filled_slots(slots) =~= filled_slots(shorter));
        }
    }
}

/// Every tile index belongs to a coordinate on the grid.
pub proof fn lemma_index_has_coordinates(world: WorldModel, t: int) -> (pos: (u32, u32))
    requires
        world.wf(),
        0 <= t < world.tiles.len(),
    ensures
        world.contains(pos.0, pos.1),
        world.index_of(pos.0, pos.1) == t,
{
    let w = world.width as int;
    let h = world.height as int;
    assert(w > 0) by (nonlinear_arith)
        requires
            0 <= t < w * h,
            w >= 0,
    ;
    let x = t % w;
    let y = t / w;
    assert(t == y * w + x && 0 <= x < w && 0 <= y < h) by (nonlinear_arith)
        requires
            0 <= t < w * h,
            w > 0,
            x == t % w,
            y == t / w,
    ;
    (x as u32, y as u32)
}

/// In a settled world there are as many occupied tiles as creatures in the
/// store.
pub proof fn lemma_census(world: WorldModel, store: CreatureMapModel)
    requires
        settled(world, store),
    ensures
        occupied_count(world.tiles) == active_handles(store.slots).len(),
{
    lemma_occupied_count_is_size(world.tiles);
    lemma_active_handles_is_size(store.slots);
    let slots = filled_slots(store.slots);
    let tiles = occupied_indices(world.tiles);
    let home = |i: int|
        world.index_of(store.slots[i]->0.stats.pos_x, store.slots[i]->0.stats.pos_y);
    assert forall|a: int, b: int|
        slots.contains(a) && slots.contains(b) && #[trigger] home(a) == #[trigger] home(
            b,
        ) implies a == b by {
        let ca = store.slots[a]->0;
        let cb = store.slots[b]->0;
        assert(placed(world, store, a));
        assert(placed(world, store, b));
        lemma_index_injective(
            world.width,
            ca.stats.pos_x,
            ca.stats.pos_y,
            cb.stats.pos_x,
            cb.stats.pos_y,
        );
    }
    assert forall|t: int| tiles.contains(t) implies slots.map(home).contains(t) by {
        let pos = lemma_index_has_coordinates(world, t);
        assert(claimed(world, store, pos.0, pos.1));
        let id = world.tile(pos.0, pos.1).creature->0;
        let i = id.slot() as int;
        assert(slots.contains(i));
        assert(home(i) == t);
    }
    assert forall|t: int| slots.map(home).contains(t) implies tiles.contains(t) by {
        let i = choose|i: int| slots.contains(i) && home(i) == t;
        assert(placed(world, store, i));
        let c = store.slots[i]->0;
        lemma_index_in_range(world.width, world.height, c.stats.pos_x, c.stats.pos_y);
    }
    assert(slots.map(home) =~= tiles);
    vstd::set_lib::lemma_map_size(slots, tiles, home);
}

} // verus!
