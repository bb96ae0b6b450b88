//! The round driver: a world, a store, and the pass in which every living
//! creature takes its turn.

use crate::census::lemma_census;
use crate::creature::command::turn_of;
use crate::creature::command::Command;
use crate::creature::command::Draw;
use crate::creature::command::NUM_MAX_GENES;
use crate::creature::command::Turn;
use crate::creature::draws_possible;
use crate::creature::ticked;
use crate::creature::CreatureModel;
use crate::creature::INITIAL_ENERGY;
use crate::creaturemap::lemma_total_energy_push;
use crate::creaturemap::lemma_total_energy_update;
use crate::creaturemap::total_energy;
use crate::creaturemap::CreatureId;
use crate::creaturemap::CreatureMap;
use crate::creaturemap::CreatureMapModel;
use crate::occupancy::claimed;
use crate::occupancy::lemma_put_back_settled;
use crate::occupancy::lemma_release_settled;
use crate::occupancy::lemma_take_consistent;
use crate::occupancy::lemma_tile_after;
use crate::occupancy::placed;
use crate::occupancy::settled;
use crate::renderer::pixel_at;
use crate::renderer::render;
use crate::renderer::shade;
use crate::renderer::DisplayTypes;
use crate::world::lemma_index_in_range;
use crate::world::lemma_total_food_update;
use crate::world::occupied_count;
use crate::world::total_food;
use crate::world::INITIAL_FOOD;
use crate::world::Tile;
use crate::world::World;
use crate::world::WorldModel;
use vstd::prelude::*;

verus! {

/// A simulation: the world and the creatures in it.
pub struct Game {
    world: World,
    creatures: CreatureMap,
    /// An upper bound on all food and energy in the simulation.
    budget: u32,
}

/// What a `Game` is.
pub struct GameModel {
    pub world: WorldModel,
    pub store: CreatureMapModel,
}

/// The handles of the creatures in `slots`, in ascending slot order.
pub open spec fn active_handles(slots: Seq<Option<CreatureModel>>) -> Seq<CreatureId>
    decreases slots.len(),
{
    if slots.len() == 0 {
        Seq::empty()
    } else {
        match slots.last() {
            Some(c) => active_handles(slots.drop_last()).push(c.stats.id),
            None => active_handles(slots.drop_last()),
        }
    }
}

/// There are no more handles than slots.
pub proof fn lemma_active_handles_len(slots: Seq<Option<CreatureModel>>)
    ensures
        active_handles(slots).len() <= slots.len(),
    decreases slots.len(),
{
    if slots.len() > 0 {
        lemma_active_handles_len(slots.drop_last());
    }
}

impl GameModel {
    /// All food and energy in the game.
    pub open spec fn total(self) -> nat {
        total_food(self.world.tiles) + total_energy(self.store.slots)
    }
}

/// The game after the turn of `id` with the draws `draws`. A handle that no
/// longer resolves has no turn. Else its creature is taken out of the store
/// and ticked; one that lives is put back into its slot, and the slot of one
/// that dies is freed.
pub open spec fn turn_taken(game: GameModel, id: CreatureId, draws: Seq<Draw>) -> GameModel {
    match game.store.resolve(id) {
        None => game,
        Some(c) => {
            let (after, alive) = ticked(
                Turn { world: game.world, stats: c.stats, store: game.store.take(id) },
                c.genes,
                c.ctype,
                draws,
            );
            let back = CreatureModel { stats: after.stats, ..c };
            GameModel {
                world: after.world,
                store: if alive {
                    after.store.set(id, back)
                } else {
                    after.store.set(id, back).deallocate(id)
                },
            }
        },
    }
}

/// The draws are ones that the creature of `id` can make in its turn.
pub open spec fn turn_possible(game: GameModel, id: CreatureId, draws: Seq<Draw>) -> bool {
    match game.store.resolve(id) {
        None => true,
        Some(c) => draws_possible(draws, c.genes),
    }
}

/// The game after the first `n` of the handles `ids` had their turns, the
/// `k`-th with the draws `draws[k]`.
pub open spec fn round_run(game: GameModel, ids: Seq<CreatureId>, draws: Seq<Seq<Draw>>, n: nat) -> GameModel
    decreases n,
{
    if n == 0 {
        game
    } else {
        turn_taken(round_run(game, ids, draws, (n - 1) as nat), ids[n - 1], draws[n - 1])
    }
}

/// The draws of a round are as many as the handles, and each turn's draws
/// are ones that its creature can make when its turn comes.
pub open spec fn round_possible(game: GameModel, ids: Seq<CreatureId>, draws: Seq<Seq<Draw>>) -> bool {
    &&& draws.len() == ids.len()
    &&& forall|k: int|
        0 <= k < ids.len() ==> turn_possible(
            #[trigger] round_run(game, ids, draws, k as nat),
            ids[k],
            draws[k],
        )
}

/// Only the draws of the turns that were taken matter.
pub proof fn lemma_round_prefix(
    game: GameModel,
    ids: Seq<CreatureId>,
    draws: Seq<Seq<Draw>>,
    more: Seq<Seq<Draw>>,
    n: nat,
)
    requires
        n <= draws.len() <= more.len(),
        forall|k: int| 0 <= k < n ==> draws[k] == more[k],
    ensures
        round_run(game, ids, draws, n) == round_run(game, ids, more, n),
    decreases n,
{
    if n > 0 {
        lemma_round_prefix(game, ids, draws, more, (n - 1) as nat);
    }
}

/// The program that every creature of the first generation carries.
pub open spec fn seed_genes() -> Seq<Command> {
    seq![Command::Eat, Command::Reproduce]
}

impl Game {
    /// The world and the store of this game.
    pub closed spec fn view(&self) -> GameModel {
        GameModel { world: self.world@, store: self.creatures@ }
    }

    /// All food and energy together fit the energy type.
    pub closed spec fn within_budget(&self) -> bool {
        total_food(self.world@.tiles) + total_energy(self.creatures@.slots) <= self.budget
    }

    /// World and store are settled, and food and energy are bounded.
    pub open spec fn wf(&self) -> bool {
        settled(self@.world, self@.store) && self.within_budget()
    }

    /// A round may need one stamp per gene of every creature; this says
    /// that the store has them.
    pub open spec fn stamps_suffice(&self) -> bool {
        self@.store.issued + NUM_MAX_GENES * self@.store.slots.len() <= u64::MAX
    }

    /// A game on a fresh world of `width * height` tiles, without creatures.
    pub fn new(width: u32, height: u32) -> (game: Game)
        requires
            INITIAL_FOOD * (width * height) <= u32::MAX,
        ensures
            game.wf(),
            game@.world.width == width,
            game@.world.height == height,
            forall|i: int|
                0 <= i < game@.world.tiles.len() ==> (#[trigger] game@.world.tiles[i]).food
                    == INITIAL_FOOD && game@.world.tiles[i].creature is None,
            game@.store.slots.len() == 0,
            game@.store.free.len() == 0,
            game@.store.issued == 0,
    {
        proof {
            assert(width * height <= INITIAL_FOOD * (width * height)) by (nonlinear_arith);
        }
        let world = World::new(width, height);
        let creatures = CreatureMap::new();
        let budget: u32 = INITIAL_FOOD * (width * height);
        proof {
            assert forall|x: u32, y: u32| world@.contains(x, y) implies #[trigger] claimed(
                world@,
                creatures@,
                x,
                y,
            ) by {
                lemma_index_in_range(width, height, x, y);
            }
        }
        Game { world, creatures, budget }
    }

    /// The world, for reading.
    pub fn get_world(&self) -> (world: &World)
        ensures
            world@ == self@.world,
    {
        &self.world
    }

    /// The store, for reading.
    pub fn get_creatures(&self) -> (creatures: &CreatureMap)
        ensures
            creatures@ == self@.store,
    {
        &self.creatures
    }

    /// A frame of the world as it stands.
    pub fn render(&self, disp: &DisplayTypes) -> (frame: Vec<u8>)
        requires
            self.wf(),
        ensures
            frame@.len() == 4 * (self@.world.width * self@.world.height),
            forall|x: u32, y: u32|
                self@.world.contains(x, y) ==> pixel_at(frame@, self@.world.index_of(x, y))
                    == #[trigger] shade(self@.world, self@.store, x, y, *disp),
    {
        render(&self.world, &self.creatures, disp)
    }

    /// Places a creature of the first generation at `(x, y)` and says
    /// whether it did: the tile must be on the grid and unoccupied, and a
    /// stamp and the newborn's energy must still fit.
    pub fn place_creature(&mut self, x: u32, y: u32) -> (placed_it: bool)
        requires
            old(self).wf(),
        ensures
            final(self).wf(),
            placed_it == (old(self)@.world.contains(x, y) && old(self)@.world.tile(
                x,
                y,
            ).creature is None && old(self).can_place()),
            placed_it ==> final(self)@.world == old(self)@.world.with_occupant(
                x,
                y,
                Some(old(self)@.store.next_handle()),
            ) && final(self)@.store == old(self)@.store.add(x, y, seed_genes()),
            !placed_it ==> final(self)@ == old(self)@,
            final(self)@.total() == old(self)@.total() + (if placed_it {
                INITIAL_ENERGY as nat
            } else {
                0nat
            }),
    {
        let size = self.world.get_size();
        if x >= size.0 || y >= size.1 {
            return false;
        }
        if self.world.get_tile(x, y).creature.is_some() {
            return false;
        }
        if !self.has_room() {
            return false;
        }
        let ghost w0 = self.world@;
        let ghost s0 = self.creatures@;
        let mut genes: Vec<Command> = Vec::new();
        genes.push(Command::Eat);
        genes.push(Command::Reproduce);
        proof {
            assert(genes@ =~= seed_genes());
        }
        let id = self.creatures.add_creature(x, y, genes);
        self.world.get_tile_mut(x, y).creature = Some(id);
        self.budget = self.budget + INITIAL_ENERGY;
        proof {
            let child = CreatureModel::newborn(id, x, y, seed_genes());
            let j = id.slot() as int;
            let a = s0.allocate();
            let t = Tile { creature: Some(id), ..w0.tile(x, y) };
            lemma_index_in_range(w0.width, w0.height, x, y);
            lemma_total_food_update(w0.tiles, w0.index_of(x, y), t);
            lemma_total_energy_push(s0.slots, None);
            if s0.free.len() > 0 {
                assert(s0.free[s0.free.len() - 1] == j);
            }
            lemma_total_energy_update(a.slots, j, Some(child));
            let w2 = self.world@;
            let s2 = self.creatures@;
            assert forall|i: int|
                0 <= i < s2.slots.len() && s2.slots[i] is Some implies #[trigger] placed(
                w2,
                s2,
                i,
            ) by {
                if i != j {
                    assert(placed(w0, s0, i));
                    let c = s0.slots[i]->0;
                    lemma_tile_after(w0, x, y, t, c.stats.pos_x, c.stats.pos_y);
                } else {
                    lemma_tile_after(w0, x, y, t, x, y);
                }
            }
            assert forall|px: u32, py: u32| w2.contains(px, py) implies #[trigger] claimed(
                w2,
                s2,
                px,
                py,
            ) by {
                lemma_tile_after(w0, x, y, t, px, py);
                assert(claimed(w0, s0, px, py));
            }
        }
        true
    }

    /// The store has a stamp left and the budget has room for a newborn.
    pub closed spec fn can_place(&self) -> bool {
        self.creatures@.issued < u64::MAX && self.budget <= u32::MAX
            - INITIAL_ENERGY
    }

    /// Whether the store has a stamp left and the budget has room for a
    /// newborn.
    pub fn has_room(&self) -> (room: bool)
        ensures
            room == self.can_place(),
    {
        self.creatures.get_issued() < u64::MAX && self.budget <= u32::MAX
            - INITIAL_ENERGY
    }

    /// The handles of the creatures in the store, in ascending slot order.
    pub fn active_creatures(&self) -> (active: Vec<CreatureId>)
        ensures
            active@ == active_handles(self@.store.slots),
            active@.len() <= self@.store.slots.len(),
            self.wf() ==> active@.len() == occupied_count(self@.world.tiles),
    {
        let mut active: Vec<CreatureId> = Vec::new();
        let count = self.creatures.get_num();
        let mut i: usize = 0;
        while i < count
            invariant
                i <= count,
                count == self.creatures@.slots.len(),
                active@ == active_handles(self.creatures@.slots.take(i as int)),
            decreases count - i,
        {
            proof {
                assert(self.creatures@.slots.take(i + 1).drop_last() =~= self.creatures@.slots.take(
                    i as int,
                ));
            }
            if let Some(c) = self.creatures.get_creatureid_by_index(i) {
                active.push(c);
            }
            i = i + 1;
        }
        proof {
            assert(self.creatures@.slots.take(i as int) =~= self.creatures@.slots);
            lemma_active_handles_len(self.creatures@.slots);
            if self.wf() {
                lemma_census(self.world@, self.creatures@);
            }
        }
        active
    }

    /// Whether the store has the stamps that the next round may need.
    pub fn can_simulate(&self) -> (ready: bool)
        ensures
            ready == self.stamps_suffice(),
    {
        let count = self.creatures.get_num();
        let issued = self.creatures.get_issued();
        if count as u64 > u64::MAX / 16 {
            return false;
        }
        let need: u64 = 16 * (count as u64);
        issued <= u64::MAX - need
    }

    /// Advances the simulation by one round and says whether any creature
    /// remains alive after it; `false` is the end of the simulation. Every
    /// creature that is in the store when the round starts, and still there
    /// when its turn comes, is taken out, simulated for one tick and put back
    /// if it lives; the slot of one that dies is freed.
    pub fn simulate(&mut self) -> (any_alive: bool)
        requires
            old(self).wf(),
            old(self).stamps_suffice(),
        ensures
            final(self).wf(),
            any_alive == (active_handles(final(self)@.store.slots).len() > 0),
            exists|draws: Seq<Seq<Draw>>|
                round_possible(old(self)@, active_handles(old(self)@.store.slots), draws)
                    && final(self)@ == #[trigger] round_run(
                    old(self)@,
                    active_handles(old(self)@.store.slots),
                    draws,
                    active_handles(old(self)@.store.slots).len(),
                ),
            final(self)@.total() == old(self)@.total(),
            final(self)@.world.width == old(self)@.world.width,
            final(self)@.world.height == old(self)@.world.height,
            old(self)@.store.issued <= final(self)@.store.issued,
            final(self)@.store.issued <= old(self)@.store.issued + NUM_MAX_GENES * active_handles(
                old(self)@.store.slots,
            ).len(),
    {
        let active = self.active_creatures();
        let ghost start = self@;
        let ghost mut draws: Seq<Seq<Draw>> = Seq::empty();
        if active.len() == 0 {
            proof {
                assert(round_possible(start, active@, draws));
                assert(self@ == round_run(start, active@, draws, 0));
            }
            return false;
        }
        let ghost issued0 = self.creatures@.issued;
        let mut i: usize = 0;
        while i < active.len()
            invariant
                i <= active@.len(),
                active@.len() <= old(self)@.store.slots.len(),
                self.wf(),
                self.world@.width == old(self).world@.width,
                self.world@.height == old(self).world@.height,
                issued0 == old(self)@.store.issued,
                issued0 + NUM_MAX_GENES * old(self)@.store.slots.len() <= u64::MAX,
                issued0 <= self.creatures@.issued <= issued0 + NUM_MAX_GENES * i,
                start == old(self)@,
                self@.total() == start.total(),
                draws.len() == i,
                self@ == round_run(start, active@, draws, i as nat),
                forall|k: int|
                    0 <= k < i ==> turn_possible(
                        #[trigger] round_run(start, active@, draws, k as nat),
                        active@[k],
                        draws[k],
                    ),
            decreases active@.len() - i,
        {
            let id = active[i];
            let ghost w0 = self.world@;
            let ghost s0 = self.creatures@;
            proof {
                let turns = active@.len();
                let slots = old(self)@.store.slots.len();
                assert(NUM_MAX_GENES * i + NUM_MAX_GENES <= NUM_MAX_GENES * slots)
                    by (nonlinear_arith)
                    requires
                        i < turns,
                        turns <= slots,
                ;
            }
            let ghost now = self@;
            let ghost mut turn_draws: Seq<Draw> = Seq::empty();
            match self.creatures.move_creature(id) {
                None => {},
                Some(taken) => {
                    let mut creat = taken;
                    let ghost c0 = creat@;
                    let ghost t0 = turn_of(w0, c0.stats, s0.take(id));
                    proof {
                        lemma_take_consistent(w0, s0, id);
                        lemma_total_energy_update(s0.slots, id.slot() as int, None);
                    }
                    let alive = creat.simulate(&mut self.world, &mut self.creatures);
                    let back = creat.get_id();
                    proof {
                        let t = turn_of(self.world@, creat@.stats, self.creatures@);
                        turn_draws = choose|ds: Seq<Draw>|
                            draws_possible(ds, c0.genes) && (t, alive) == #[trigger] ticked(
                                t0,
                                c0.genes,
                                c0.ctype,
                                ds,
                            );
                        assert(creat@ == CreatureModel { stats: t.stats, ..c0 });
                        lemma_total_energy_update(
                            self.creatures@.slots,
                            back.slot() as int,
                            Some(creat@),
                        );
                        if alive {
                            lemma_put_back_settled(t, creat@);
                        } else {
                            lemma_release_settled(self.world@, self.creatures@, creat@);
                        }
                    }
                    self.creatures.set_creature(back, creat);
                    if !alive {
                        self.creatures.deallocate(back);
                    }
                },
            }
            proof {
                assert(self@ == turn_taken(now, id, turn_draws));
                assert(turn_possible(now, id, turn_draws));
                let longer = draws.push(turn_draws);
                lemma_round_prefix(start, active@, draws, longer, i as nat);
                assert forall|k: int| 0 <= k < i + 1 implies turn_possible(
                    #[trigger] round_run(start, active@, longer, k as nat),
                    active@[k],
                    longer[k],
                ) by {
                    lemma_round_prefix(start, active@, draws, longer, k as nat);
                }
                draws = longer;
            }
            i = i + 1;
        }
        proof {
            assert(round_possible(start, active@, draws));
        }
        let remaining = self.active_creatures();
        remaining.len() > 0
    }
}

} // verus!
