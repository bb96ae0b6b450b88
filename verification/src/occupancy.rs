//! How tiles and creatures refer to each other, and why every opcode keeps
//! it so: a tile's handle resolves to the creature that stands on it, and a
//! creature stands on the tile that holds its handle.

use crate::creature::adjusted;
use crate::creature::command::attacked;
use crate::creature::command::bite;
use crate::creature::command::eaten;
use crate::creature::command::moved;
use crate::creature::command::mutated;
use crate::creature::command::reproduced;
use crate::creature::command::step;
use crate::creature::command::Command;
use crate::creature::command::Draw;
use crate::creature::command::ENERGY_TAKEN;
use crate::creature::command::Mutation;
use crate::creature::command::NUM_MAX_GENES;
use crate::creature::command::REPRODUCE_THRESHOLD;
use crate::creature::command::Turn;
use crate::creature::is_step;
use crate::creature::metabolised;
use crate::creature::run;
use crate::creature::CreatureModel;
use crate::creature::CreatureType;
use crate::creaturemap::CreatureId;
use crate::creaturemap::CreatureMapModel;
use crate::world::lemma_index_in_range;
use crate::world::lemma_index_injective;
use crate::world::Tile;
use crate::world::WorldModel;
use vstd::prelude::*;

verus! {

/// The creature in slot `i` has a valid program and some energy, carries a
/// handle for its own slot, and stands on a tile of the grid that holds this
/// handle.
pub open spec fn placed(world: WorldModel, store: CreatureMapModel, i: int) -> bool {
    let c = store.slots[i]->0;
    &&& c.wf()
    &&& c.stats.energy > 0
    &&& c.stats.id.slot() == i
    &&& world.contains(c.stats.pos_x, c.stats.pos_y)
    &&& world.tile(c.stats.pos_x, c.stats.pos_y).creature == Some(c.stats.id)
}

/// Every creature in the store is placed.
pub open spec fn all_placed(world: WorldModel, store: CreatureMapModel) -> bool {
    forall|i: int|
        0 <= i < store.slots.len() && store.slots[i] is Some ==> #[trigger] placed(world, store, i)
}

/// The tile at `(x, y)` is empty, or its handle resolves in the store to a
/// creature whose position is `(x, y)`.
pub open spec fn claimed(world: WorldModel, store: CreatureMapModel, x: u32, y: u32) -> bool {
    match world.tile(x, y).creature {
        None => true,
        Some(id) => store.resolve(id) is Some && store.resolve(id)->0.stats.pos_x == x
            && store.resolve(id)->0.stats.pos_y == y,
    }
}

/// The slot of `id` exists, is empty and is not on the free list: it waits
/// for the creature that was taken out of it.
pub open spec fn reserved(store: CreatureMapModel, id: CreatureId) -> bool {
    &&& id.slot() < store.slots.len()
    &&& store.slots[id.slot() as int] is None
    &&& forall|k: int| 0 <= k < store.free.len() ==> (#[trigger] store.free[k]) != id.slot()
}

/// World and store agree, with no creature taken out.
pub open spec fn settled(world: WorldModel, store: CreatureMapModel) -> bool {
    &&& world.wf()
    &&& store.wf()
    &&& all_placed(world, store)
    &&& forall|x: u32, y: u32| world.contains(x, y) ==> #[trigger] claimed(world, store, x, y)
}

/// World and store agree in the middle of a turn: as when settled, but for
/// the acting creature, whose slot is reserved and whose tile holds its
/// handle.
pub open spec fn consistent(turn: Turn) -> bool {
    &&& turn.wf()
    &&& reserved(turn.store, turn.stats.id)
    &&& turn.world.tile(turn.stats.pos_x, turn.stats.pos_y).creature == Some(turn.stats.id)
    &&& all_placed(turn.world, turn.store)
    &&& forall|x: u32, y: u32|
        turn.world.contains(x, y) ==> #[trigger] claimed(turn.world, turn.store, x, y) || (x
            == turn.stats.pos_x && y == turn.stats.pos_y)
}

/// Replacing the tile at `(x, y)` changes what is read at `(x, y)` and
/// nowhere else.
pub proof fn lemma_tile_after(world: WorldModel, x: u32, y: u32, t: Tile, x2: u32, y2: u32)
    requires
        world.wf(),
        world.contains(x, y),
        world.contains(x2, y2),
    ensures
        world.with_tile(x, y, t).tile(x2, y2) == (if x == x2 && y == y2 {
            t
        } else {
            world.tile(x2, y2)
        }),
        world.with_tile(x, y, t).wf(),
        world.with_tile(x, y, t).width == world.width,
        world.with_tile(x, y, t).height == world.height,
{
    lemma_index_in_range(world.width, world.height, x, y);
    lemma_index_in_range(world.width, world.height, x2, y2);
    if world.index_of(x, y) == world.index_of(x2, y2) {
        lemma_index_injective(world.width, x, y, x2, y2);
    }
}

/// One step from a position on the grid leads to a position on the grid.
pub proof fn lemma_adjusted_on_grid(world: WorldModel, pos: (u32, u32), dir: (i8, i8))
    requires
        world.contains(pos.0, pos.1),
        is_step(dir),
    ensures
        world.contains(adjusted(world, pos, dir).0, adjusted(world, pos, dir).1),
{
}

/// In a settled world no two tiles hold the same handle.
pub proof fn lemma_occupants_distinct(
    world: WorldModel,
    store: CreatureMapModel,
    x1: u32,
    y1: u32,
    x2: u32,
    y2: u32,
)
    requires
        settled(world, store),
        world.contains(x1, y1),
        world.contains(x2, y2),
        world.tile(x1, y1).creature is Some,
        world.tile(x1, y1).creature == world.tile(x2, y2).creature,
    ensures
        x1 == x2,
        y1 == y2,
{
    assert(claimed(world, store, x1, y1));
    assert(claimed(world, store, x2, y2));
}

/// `Move` keeps world and store consistent.
proof fn lemma_move_consistent(turn: Turn, dir: (i8, i8))
    requires
        consistent(turn),
        is_step(dir),
    ensures
        consistent(
            Turn {
                world: moved(turn.world, turn.stats, dir).0,
                stats: moved(turn.world, turn.stats, dir).1,
                store: turn.store,
            },
        ),
{
    let w = turn.world;
    let s = turn.stats;
    let to = adjusted(w, (s.pos_x, s.pos_y), dir);
    lemma_adjusted_on_grid(w, (s.pos_x, s.pos_y), dir);
    if w.tile(to.0, to.1).creature is None {
        let t1 = Tile { creature: None, ..w.tile(s.pos_x, s.pos_y) };
        let w1 = w.with_tile(s.pos_x, s.pos_y, t1);
        lemma_tile_after(w, s.pos_x, s.pos_y, t1, to.0, to.1);
        let t2 = Tile { creature: Some(s.id), ..w1.tile(to.0, to.1) };
        let w2 = w1.with_tile(to.0, to.1, t2);
        let s2 = moved(w, s, dir).1;
        assert(w2 == moved(w, s, dir).0);
        lemma_tile_after(w1, to.0, to.1, t2, to.0, to.1);
        assert forall|x: u32, y: u32| w2.contains(x, y) implies #[trigger] claimed(
            w2,
            turn.store,
            x,
            y,
        ) || (x == s2.pos_x && y == s2.pos_y) by {
            lemma_tile_after(w, s.pos_x, s.pos_y, t1, x, y);
            lemma_tile_after(w1, to.0, to.1, t2, x, y);
            assert(claimed(w, turn.store, x, y) || (x == s.pos_x && y == s.pos_y));
        }
        assert forall|i: int|
            0 <= i < turn.store.slots.len() && turn.store.slots[i] is Some implies #[trigger] placed(
            w2,
            turn.store,
            i,
        ) by {
            assert(placed(w, turn.store, i));
            let c = turn.store.slots[i]->0;
            lemma_tile_after(w, s.pos_x, s.pos_y, t1, c.stats.pos_x, c.stats.pos_y);
            lemma_tile_after(w1, to.0, to.1, t2, c.stats.pos_x, c.stats.pos_y);
        }
    }
}

/// `Eat` keeps world and store consistent.
proof fn lemma_eat_consistent(turn: Turn, dir: (i8, i8))
    requires
        consistent(turn),
        is_step(dir),
    ensures
        consistent(
            Turn {
                world: eaten(turn.world, turn.stats, dir).0,
                stats: eaten(turn.world, turn.stats, dir).1,
                store: turn.store,
            },
        ),
{
    let w = turn.world;
    let s = turn.stats;
    let to = adjusted(w, (s.pos_x, s.pos_y), dir);
    lemma_adjusted_on_grid(w, (s.pos_x, s.pos_y), dir);
    let w2 = eaten(w, s, dir).0;
    let s2 = eaten(w, s, dir).1;
    if w.tile(to.0, to.1).creature is None {
        let food = w.tile(to.0, to.1).food;
        let t = Tile { food: (food - bite(food)) as u32, ..w.tile(to.0, to.1) };
        lemma_tile_after(w, to.0, to.1, t, to.0, to.1);
        lemma_tile_after(w, to.0, to.1, t, s.pos_x, s.pos_y);
        assert(w2 == w.with_tile(to.0, to.1, t));
        assert forall|x: u32, y: u32| w2.contains(x, y) implies #[trigger] claimed(
            w2,
            turn.store,
            x,
            y,
        ) || (x == s2.pos_x && y == s2.pos_y) by {
            lemma_tile_after(w, to.0, to.1, t, x, y);
            assert(claimed(w, turn.store, x, y) || (x == s.pos_x && y == s.pos_y));
        }
        assert forall|i: int|
            0 <= i < turn.store.slots.len() && turn.store.slots[i] is Some implies #[trigger] placed(
            w2,
            turn.store,
            i,
        ) by {
            assert(placed(w, turn.store, i));
            let c = turn.store.slots[i]->0;
            lemma_tile_after(w, to.0, to.1, t, c.stats.pos_x, c.stats.pos_y);
        }
    }
}

/// `Attack` keeps world and store consistent.
proof fn lemma_attack_consistent(turn: Turn, dir: (i8, i8))
    requires
        consistent(turn),
        is_step(dir),
    ensures
        consistent(
            Turn {
                world: attacked(turn.world, turn.stats, turn.store, dir).0,
                stats: attacked(turn.world, turn.stats, turn.store, dir).1,
                store: attacked(turn.world, turn.stats, turn.store, dir).2,
            },
        ),
{
    let w = turn.world;
    let s = turn.stats;
    let st = turn.store;
    let to = adjusted(w, (s.pos_x, s.pos_y), dir);
    lemma_adjusted_on_grid(w, (s.pos_x, s.pos_y), dir);
    let w2 = attacked(w, s, st, dir).0;
    let s2 = attacked(w, s, st, dir).1;
    let st2 = attacked(w, s, st, dir).2;
    if w.tile(to.0, to.1).creature is Some && st.resolve(w.tile(to.0, to.1).creature->0) is Some {
        let id = w.tile(to.0, to.1).creature->0;
        let victim = st.resolve(id)->0;
        let j = id.slot() as int;
        assert(claimed(w, st, to.0, to.1) || (to.0 == s.pos_x && to.1 == s.pos_y));
        assert(placed(w, st, j));
        if victim.stats.energy <= ENERGY_TAKEN {
            let t = Tile { creature: None, ..w.tile(to.0, to.1) };
            lemma_tile_after(w, to.0, to.1, t, s.pos_x, s.pos_y);
            assert(w2 == w.with_tile(to.0, to.1, t));
            assert(st2.free.len() == st.free.len() + 1);
            assert forall|k: int| 0 <= k < st2.free.len() implies (#[trigger] st2.free[k])
                < st2.slots.len() && st2.slots[st2.free[k] as int] is None by {
                if k < st.free.len() {
                    assert(st2.free[k] == st.free[k]);
                }
            }
            assert forall|a: int, b: int| 0 <= a < b < st2.free.len() implies st2.free[a]
                != st2.free[b] by {
                assert(st2.free[a] == st.free[a]);
                if b < st.free.len() {
                    assert(st2.free[b] == st.free[b]);
                }
            }
            assert forall|k: int| 0 <= k < st2.free.len() implies (#[trigger] st2.free[k])
                != s.id.slot() by {
                if k < st.free.len() {
                    assert(st2.free[k] == st.free[k]);
                }
            }
            assert forall|x: u32, y: u32| w2.contains(x, y) implies #[trigger] claimed(
                w2,
                st2,
                x,
                y,
            ) || (x == s2.pos_x && y == s2.pos_y) by {
                lemma_tile_after(w, to.0, to.1, t, x, y);
                assert(claimed(w, st, x, y) || (x == s.pos_x && y == s.pos_y));
            }
            assert forall|i: int|
                0 <= i < st2.slots.len() && st2.slots[i] is Some implies #[trigger] placed(
                w2,
                st2,
                i,
            ) by {
                assert(placed(w, st, i));
                let c = st.slots[i]->0;
                lemma_tile_after(w, to.0, to.1, t, c.stats.pos_x, c.stats.pos_y);
            }
        } else {
            assert forall|x: u32, y: u32| w2.contains(x, y) implies #[trigger] claimed(
                w2,
                st2,
                x,
                y,
            ) || (x == s2.pos_x && y == s2.pos_y) by {
                assert(claimed(w, st, x, y) || (x == s.pos_x && y == s.pos_y));
            }
            assert forall|i: int|
                0 <= i < st2.slots.len() && st2.slots[i] is Some implies #[trigger] placed(
                w2,
                st2,
                i,
            ) by {
                assert(placed(w, st, i));
            }
        }
    }
}

/// A mutation keeps a valid program valid.
pub proof fn lemma_mutated_valid(genes: Seq<Command>, mutation: Mutation)
    requires
        1 <= genes.len() <= NUM_MAX_GENES,
        mutation.fits(genes.len()),
    ensures
        1 <= mutated(genes, mutation).len() <= NUM_MAX_GENES,
        genes.len() == NUM_MAX_GENES ==> mutated(genes, mutation).len() == NUM_MAX_GENES,
{
}

/// `Reproduce` keeps world and store consistent.
proof fn lemma_reproduce_consistent(turn: Turn, dir: (i8, i8), child: Seq<Command>)
    requires
        consistent(turn),
        is_step(dir),
        1 <= child.len() <= NUM_MAX_GENES,
        reproduced(turn.world, turn.stats, turn.store, dir, child).2.slots.len() <= usize::MAX,
    ensures
        consistent(
            Turn {
                world: reproduced(turn.world, turn.stats, turn.store, dir, child).0,
                stats: reproduced(turn.world, turn.stats, turn.store, dir, child).1,
                store: reproduced(turn.world, turn.stats, turn.store, dir, child).2,
            },
        ),
{
    let w = turn.world;
    let s = turn.stats;
    let st = turn.store;
    let to = adjusted(w, (s.pos_x, s.pos_y), dir);
    lemma_adjusted_on_grid(w, (s.pos_x, s.pos_y), dir);
    let w2 = reproduced(w, s, st, dir, child).0;
    let s2 = reproduced(w, s, st, dir, child).1;
    let st2 = reproduced(w, s, st, dir, child).2;
    if s.energy >= REPRODUCE_THRESHOLD && w.tile(to.0, to.1).creature is None {
        let id = st.next_handle();
        let j = id.slot() as int;
        let a = st.allocate();
        if st.free.len() > 0 {
            assert(st.free[st.free.len() - 1] == j);
        }
        assert(0 <= j < a.slots.len());
        assert(a.slots[j] is None);
        assert(j != s.id.slot());
        let t = Tile { creature: Some(id), ..w.tile(to.0, to.1) };
        lemma_tile_after(w, to.0, to.1, t, s.pos_x, s.pos_y);
        lemma_tile_after(w, to.0, to.1, t, to.0, to.1);
        assert(w2 == w.with_tile(to.0, to.1, t));
        assert forall|k: int| 0 <= k < st2.free.len() implies (#[trigger] st2.free[k])
            < st2.slots.len() && st2.slots[st2.free[k] as int] is None && st2.free[k]
            != s.id.slot() by {
            assert(st2.free[k] == st.free[k]);
        }
        assert forall|p: int, q: int| 0 <= p < q < st2.free.len() implies st2.free[p]
            != st2.free[q] by {
            assert(st2.free[p] == st.free[p]);
            assert(st2.free[q] == st.free[q]);
        }
        assert(st2.wf());
        assert(reserved(st2, s2.id));
        assert forall|x: u32, y: u32| w2.contains(x, y) implies #[trigger] claimed(w2, st2, x, y)
            || (x == s2.pos_x && y == s2.pos_y) by {
            lemma_tile_after(w, to.0, to.1, t, x, y);
            assert(claimed(w, st, x, y) || (x == s.pos_x && y == s.pos_y));
        }
        assert forall|i: int|
            0 <= i < st2.slots.len() && st2.slots[i] is Some implies #[trigger] placed(
            w2,
            st2,
            i,
        ) by {
            if i != j {
                assert(placed(w, st, i));
                let c = st.slots[i]->0;
                lemma_tile_after(w, to.0, to.1, t, c.stats.pos_x, c.stats.pos_y);
            }
        }
    }
}

/// Every opcode keeps world and store consistent, and leaves the acting
/// creature its handle.
pub proof fn lemma_step_consistent(command: Command, turn: Turn, genes: Seq<Command>, draw: Draw)
    requires
        consistent(turn),
        draw.possible(genes),
        1 <= genes.len() <= NUM_MAX_GENES,
        step(command, turn, genes, draw).store.slots.len() <= usize::MAX,
    ensures
        consistent(step(command, turn, genes, draw)),
        step(command, turn, genes, draw).stats.id == turn.stats.id,
{
    match command {
        Command::Move => {
            lemma_move_consistent(turn, draw.dir);
        },
        Command::Eat => {
            lemma_eat_consistent(turn, draw.dir);
        },
        Command::Attack => {
            lemma_attack_consistent(turn, draw.dir);
        },
        Command::Reproduce => {
            lemma_mutated_valid(genes, draw.mutation);
            lemma_reproduce_consistent(turn, draw.dir, mutated(genes, draw.mutation));
        },
        _ => {},
    }
}

/// Metabolism keeps world and store consistent while the creature lives.
/// When it dies, world and store are settled without it, and its slot is
/// still reserved.
pub proof fn lemma_metabolised_consistent(turn: Turn, ctype: CreatureType)
    requires
        consistent(turn),
    ensures
        metabolised(turn, ctype).0.stats.id == turn.stats.id,
        metabolised(turn, ctype).1 ==> consistent(metabolised(turn, ctype).0),
        !metabolised(turn, ctype).1 ==> settled(
            metabolised(turn, ctype).0.world,
            metabolised(turn, ctype).0.store,
        ) && reserved(metabolised(turn, ctype).0.store, turn.stats.id),
{
    let w = turn.world;
    let s = turn.stats;
    let st = turn.store;
    let after = metabolised(turn, ctype).0;
    let w2 = after.world;
    let t = w2.tile(s.pos_x, s.pos_y);
    lemma_tile_after(w, s.pos_x, s.pos_y, t, s.pos_x, s.pos_y);
    lemma_index_in_range(w.width, w.height, s.pos_x, s.pos_y);
    assert(w2 == w.with_tile(s.pos_x, s.pos_y, t));
    assert(after.store == st);
    assert forall|i: int|
        0 <= i < st.slots.len() && st.slots[i] is Some implies #[trigger] placed(w2, st, i) by {
        assert(placed(w, st, i));
        let c = st.slots[i]->0;
        lemma_tile_after(w, s.pos_x, s.pos_y, t, c.stats.pos_x, c.stats.pos_y);
    }
    if metabolised(turn, ctype).1 {
        assert forall|x: u32, y: u32| w2.contains(x, y) implies #[trigger] claimed(w2, st, x, y)
            || (x == s.pos_x && y == s.pos_y) by {
            lemma_tile_after(w, s.pos_x, s.pos_y, t, x, y);
            assert(claimed(w, st, x, y) || (x == s.pos_x && y == s.pos_y));
        }
    } else {
        assert forall|x: u32, y: u32| w2.contains(x, y) implies #[trigger] claimed(
            w2,
            st,
            x,
            y,
        ) by {
            lemma_tile_after(w, s.pos_x, s.pos_y, t, x, y);
            assert(claimed(w, st, x, y) || (x == s.pos_x && y == s.pos_y));
        }
    }
}

/// Taking a creature out of a settled store for its turn gives a
/// consistent turn.
pub proof fn lemma_take_consistent(world: WorldModel, store: CreatureMapModel, id: CreatureId)
    requires
        settled(world, store),
        store.resolve(id) is Some,
    ensures
        consistent(Turn { world, stats: store.resolve(id)->0.stats, store: store.take(id) }),
        store.resolve(id)->0.wf(),
        store.resolve(id)->0.stats.id == id,
        store.resolve(id)->0.stats.energy > 0,
{
    let c = store.resolve(id)->0;
    let j = id.slot() as int;
    let st2 = store.take(id);
    assert(placed(world, store, j));
    assert forall|i: int|
        0 <= i < st2.slots.len() && st2.slots[i] is Some implies #[trigger] placed(
        world,
        st2,
        i,
    ) by {
        assert(placed(world, store, i));
    }
    assert forall|x: u32, y: u32| world.contains(x, y) implies #[trigger] claimed(
        world,
        st2,
        x,
        y,
    ) || (x == c.stats.pos_x && y == c.stats.pos_y) by {
        assert(claimed(world, store, x, y));
    }
}

/// Putting the acting creature back into its slot settles world and store.
pub proof fn lemma_put_back_settled(turn: Turn, creature: CreatureModel)
    requires
        consistent(turn),
        creature.stats == turn.stats,
        creature.wf(),
        creature.stats.energy > 0,
    ensures
        settled(turn.world, turn.store.set(turn.stats.id, creature)),
{
    let w = turn.world;
    let st = turn.store;
    let st2 = st.set(turn.stats.id, creature);
    let j = turn.stats.id.slot() as int;
    assert forall|i: int|
        0 <= i < st2.slots.len() && st2.slots[i] is Some implies #[trigger] placed(w, st2, i) by {
        if i != j {
            assert(placed(w, st, i));
        }
    }
    assert forall|x: u32, y: u32| w.contains(x, y) implies #[trigger] claimed(w, st2, x, y) by {
        assert(claimed(w, st, x, y) || (x == turn.stats.pos_x && y == turn.stats.pos_y));
    }
}

/// Freeing the reserved slot of a creature that died keeps world and store
/// settled: the slot goes through the store once more and onto the free
/// list.
pub proof fn lemma_release_settled(
    world: WorldModel,
    store: CreatureMapModel,
    creature: CreatureModel,
)
    requires
        settled(world, store),
        reserved(store, creature.stats.id),
    ensures
        settled(
            world,
            store.set(creature.stats.id, creature).deallocate(creature.stats.id),
        ),
        store.set(creature.stats.id, creature).deallocate(creature.stats.id).slots == store.slots,
{
    let id = creature.stats.id;
    let st1 = store.set(id, creature);
    let st2 = st1.deallocate(id);
    let j = id.slot() as int;
    assert(st1.resolve(id) is Some);
    assert(st2.slots =~= store.slots);
    assert forall|k: int| 0 <= k < st2.free.len() implies (#[trigger] st2.free[k])
        < st2.slots.len() && st2.slots[st2.free[k] as int] is None by {
        if k < store.free.len() {
            assert(st2.free[k] == store.free[k]);
        }
    }
    assert forall|a: int, b: int| 0 <= a < b < st2.free.len() implies st2.free[a]
        != st2.free[b] by {
        assert(st2.free[a] == store.free[a]);
        if b < store.free.len() {
            assert(st2.free[b] == store.free[b]);
        }
    }
    assert forall|i: int|
        0 <= i < st2.slots.len() && st2.slots[i] is Some implies #[trigger] placed(
        world,
        st2,
        i,
    ) by {
        assert(placed(world, store, i));
    }
    assert forall|x: u32, y: u32| world.contains(x, y) implies #[trigger] claimed(
        world,
        st2,
        x,
        y,
    ) by {
        assert(claimed(world, store, x, y));
    }
}

/// Any run of opcodes keeps world and store consistent, as long as the
/// store can count its slots.
pub proof fn lemma_run_consistent(genes: Seq<Command>, turn: Turn, draws: Seq<Draw>, n: nat)
    requires
        consistent(turn),
        1 <= genes.len() <= NUM_MAX_GENES,
        n <= genes.len(),
        n <= draws.len(),
        forall|k: int| 0 <= k < n ==> (#[trigger] draws[k]).possible(genes),
        forall|k: nat| k <= n ==> (#[trigger] run(genes, turn, draws, k)).store.slots.len()
            <= usize::MAX,
    ensures
        consistent(run(genes, turn, draws, n)),
        run(genes, turn, draws, n).stats.id == turn.stats.id,
    decreases n,
{
    if n > 0 {
        let m = (n - 1) as nat;
        lemma_run_consistent(genes, turn, draws, m);
        assert(run(genes, turn, draws, n).store.slots.len() <= usize::MAX);
        lemma_step_consistent(genes[n - 1], run(genes, turn, draws, m), genes, draws[n - 1]);
    }
}

} // verus!
