//! The eight opcodes of a gene program and their effects.

use crate::creature::adjusted;
use crate::creature::is_step;
use crate::creature::Creature;
use crate::creature::CreatureModel;
use crate::creature::CreatureStats;
use crate::creaturemap::lemma_total_energy_push;
use crate::creaturemap::lemma_total_energy_update;
use crate::creaturemap::total_energy;
use crate::creaturemap::CreatureId;
use crate::creaturemap::CreatureMap;
use crate::creaturemap::CreatureMapModel;
use crate::occupancy::consistent;
use crate::occupancy::lemma_adjusted_on_grid;
use crate::occupancy::lemma_step_consistent;
use crate::occupancy::lemma_tile_after;
use crate::random::random_below;
use crate::world::lemma_index_in_range;
use crate::world::lemma_total_food_update;
use crate::world::total_food;
use crate::world::Tile;
use crate::world::World;
use crate::world::WorldModel;
use vstd::prelude::*;

verus! {

/// Number of distinct opcodes.
pub const NUM_COMMANDS: u32 = 8;

/// The longest gene program a creature may carry.
pub const NUM_MAX_GENES: usize = 16;

/// Most food that one `Eat` takes from a tile.
pub const FOOD_TAKEN: u32 = 10;

/// Energy that one `Attack` takes from a victim that survives it.
pub const ENERGY_TAKEN: u32 = 20;

/// Energy below which `Reproduce` does nothing.
pub const REPRODUCE_THRESHOLD: u32 = 200;

/// Energy that a parent pays for an offspring.
pub const REPRODUCE_COST: u32 = 100;

/// Out of a hundred draws, how many mutate the offspring.
pub const MUTATION_CHANCE: u32 = 10;

/// Out of a hundred mutations, how many add a gene instead of replacing one.
pub const NEW_GENE_CHANCE: u32 = 1;

/// One instruction of a gene program.
#[derive(Clone, Copy, PartialEq, Eq, Structural, Debug)]
pub enum Command {
    Nop,
    LookForFood,
    LookForCreature,
    Move,
    Eat,
    Attack,
    Reproduce,
    Invert,
}

/// The opcode with number `n`, in declaration order.
pub open spec fn command_of(n: u32) -> Option<Command> {
    if n == 0 {
        Some(Command::Nop)
    } else if n == 1 {
        Some(Command::LookForFood)
    } else if n == 2 {
        Some(Command::LookForCreature)
    } else if n == 3 {
        Some(Command::Move)
    } else if n == 4 {
        Some(Command::Eat)
    } else if n == 5 {
        Some(Command::Attack)
    } else if n == 6 {
        Some(Command::Reproduce)
    } else if n == 7 {
        Some(Command::Invert)
    } else {
        None
    }
}

impl Command {
    /// The opcode with number `n`, if `n` is below the number of opcodes.
    pub fn from_u32(n: u32) -> (command: Option<Command>)
        ensures
            command == command_of(n),
            command is Some <==> n < NUM_COMMANDS,
    {
        match n {
            0 => Some(Command::Nop),
            1 => Some(Command::LookForFood),
            2 => Some(Command::LookForCreature),
            3 => Some(Command::Move),
            4 => Some(Command::Eat),
            5 => Some(Command::Attack),
            6 => Some(Command::Reproduce),
            7 => Some(Command::Invert),
            _ => None,
        }
    }
}

/// A sensor reading of an amount of food: the amount, or the register's
/// maximum where it does not fit.
pub open spec fn food_reading(food: u32) -> u8 {
    if food >= 255 {
        255u8
    } else {
        food as u8
    }
}

/// A sensor reading of an occupant: the maximum if there is one, else zero.
pub open spec fn creature_reading(world: WorldModel, pos: (u32, u32)) -> u8 {
    if world.tile(pos.0, pos.1).creature is None {
        0u8
    } else {
        255u8
    }
}

/// The state after `LookForFood`: each register reads the food of the
/// neighbour on its side.
pub open spec fn sensed_food(world: WorldModel, stats: CreatureStats) -> CreatureStats {
    let pos = (stats.pos_x, stats.pos_y);
    let east = adjusted(world, pos, (1i8, 0i8));
    let west = adjusted(world, pos, (-1i8, 0i8));
    let north = adjusted(world, pos, (0i8, -1i8));
    let south = adjusted(world, pos, (0i8, 1i8));
    CreatureStats {
        e: food_reading(world.tile(east.0, east.1).food),
        w: food_reading(world.tile(west.0, west.1).food),
        n: food_reading(world.tile(north.0, north.1).food),
        s: food_reading(world.tile(south.0, south.1).food),
        ..stats
    }
}

/// The state after `LookForCreature`: each register reads whether the
/// neighbour on its side is occupied.
pub open spec fn sensed_creatures(world: WorldModel, stats: CreatureStats) -> CreatureStats {
    let pos = (stats.pos_x, stats.pos_y);
    CreatureStats {
        e: creature_reading(world, adjusted(world, pos, (1i8, 0i8))),
        w: creature_reading(world, adjusted(world, pos, (-1i8, 0i8))),
        n: creature_reading(world, adjusted(world, pos, (0i8, -1i8))),
        s: creature_reading(world, adjusted(world, pos, (0i8, 1i8))),
        ..stats
    }
}

/// The state after `Invert`: each register is reflected around its maximum.
pub open spec fn inverted(stats: CreatureStats) -> CreatureStats {
    CreatureStats {
        e: (255 - stats.e) as u8,
        w: (255 - stats.w) as u8,
        n: (255 - stats.n) as u8,
        s: (255 - stats.s) as u8,
        ..stats
    }
}

/// World and state after `Move` in direction `dir`: onto the neighbour if it
/// is unoccupied, else nothing changes.
pub open spec fn moved(world: WorldModel, stats: CreatureStats, dir: (i8, i8)) -> (
    WorldModel,
    CreatureStats,
) {
    let to = adjusted(world, (stats.pos_x, stats.pos_y), dir);
    if world.tile(to.0, to.1).creature is None {
        (
            world.with_occupant(stats.pos_x, stats.pos_y, None).with_occupant(
                to.0,
                to.1,
                Some(stats.id),
            ),
            CreatureStats { pos_x: to.0, pos_y: to.1, ..stats },
        )
    } else {
        (world, stats)
    }
}

/// Food that `Eat` takes from a tile with `food` on it.
pub open spec fn bite(food: u32) -> u32 {
    if food >= FOOD_TAKEN {
        FOOD_TAKEN
    } else {
        food
    }
}

/// `Eat` in direction `dir` leaves the creature's energy within its type: the
/// bite, if one is taken, fits on top of it.
pub open spec fn eat_fits(world: WorldModel, stats: CreatureStats, dir: (i8, i8)) -> bool {
    let to = adjusted(world, (stats.pos_x, stats.pos_y), dir);
    let tile = world.tile(to.0, to.1);
    tile.creature is None ==> stats.energy + bite(tile.food) <= u32::MAX
}

/// World and state after `Eat` in direction `dir`: a bite moves from the
/// neighbour to the creature if the neighbour is unoccupied, else nothing
/// changes.
pub open spec fn eaten(world: WorldModel, stats: CreatureStats, dir: (i8, i8)) -> (
    WorldModel,
    CreatureStats,
) {
    let to = adjusted(world, (stats.pos_x, stats.pos_y), dir);
    let tile = world.tile(to.0, to.1);
    if tile.creature is None {
        (
            world.with_food(to.0, to.1, (tile.food - bite(tile.food)) as u32),
            CreatureStats { energy: (stats.energy + bite(tile.food)) as u32, ..stats },
        )
    } else {
        (world, stats)
    }
}

/// Energy that an attacker gains from a victim with `energy`: all of it up
/// to the damage amount, the damage amount above.
pub open spec fn spoils(energy: u32) -> u32 {
    if energy <= ENERGY_TAKEN {
        energy
    } else {
        ENERGY_TAKEN
    }
}

/// `Attack` in direction `dir` leaves the attacker's energy within its type:
/// the spoils, if there is a victim, fit on top of it.
pub open spec fn attack_fits(
    world: WorldModel,
    stats: CreatureStats,
    store: CreatureMapModel,
    dir: (i8, i8),
) -> bool {
    let to = adjusted(world, (stats.pos_x, stats.pos_y), dir);
    match world.tile(to.0, to.1).creature {
        None => true,
        Some(id) => match store.resolve(id) {
            None => true,
            Some(victim) => stats.energy + spoils(victim.stats.energy) <= u32::MAX,
        },
    }
}

/// A victim after an attack that it survives.
pub open spec fn wounded(victim: CreatureModel) -> CreatureModel {
    CreatureModel {
        stats: CreatureStats { energy: (victim.stats.energy - ENERGY_TAKEN) as u32, ..victim.stats },
        ..victim
    }
}

/// World, state and store after `Attack` in direction `dir`. Nothing
/// changes unless the neighbour holds a handle that resolves in the store.
/// A victim with no more energy than one attack takes loses all of it to the
/// attacker, leaves its tile and is deallocated; any other loses what one
/// attack takes, and the attacker gains as much.
pub open spec fn attacked(
    world: WorldModel,
    stats: CreatureStats,
    store: CreatureMapModel,
    dir: (i8, i8),
) -> (WorldModel, CreatureStats, CreatureMapModel) {
    let to = adjusted(world, (stats.pos_x, stats.pos_y), dir);
    match world.tile(to.0, to.1).creature {
        None => (world, stats, store),
        Some(id) => match store.resolve(id) {
            None => (world, stats, store),
            Some(victim) => if victim.stats.energy <= ENERGY_TAKEN {
                (
                    world.with_occupant(to.0, to.1, None),
                    CreatureStats { energy: (stats.energy + victim.stats.energy) as u32, ..stats },
                    store.deallocate(id),
                )
            } else {
                (
                    world,
                    CreatureStats { energy: (stats.energy + ENERGY_TAKEN) as u32, ..stats },
                    store.with_slot(id.slot() as int, Some(wounded(victim))),
                )
            },
        },
    }
}

/// The numbers that decide how an offspring's genes differ from its
/// parent's.
#[derive(Clone, Copy, Debug)]
pub struct Mutation {
    /// Out of a hundred; below the mutation chance the genes change.
    pub roll: u32,
    /// The gene that comes in.
    pub opcode: Command,
    /// Out of a hundred; below the new-gene chance the gene is appended.
    pub append_roll: u32,
    /// Where the gene goes when it replaces one.
    pub index: usize,
}

impl Mutation {
    /// The genes change at all.
    pub open spec fn strikes(self) -> bool {
        self.roll < MUTATION_CHANCE
    }

    /// The genes grow by one: only a program below the maximum length can.
    pub open spec fn appends(self, len: nat) -> bool {
        self.strikes() && len < NUM_MAX_GENES && self.append_roll < NEW_GENE_CHANCE
    }

    /// One gene is replaced.
    pub open spec fn overwrites(self, len: nat) -> bool {
        self.strikes() && !self.appends(len)
    }

    /// The mutation can be applied to a program of `len` genes.
    pub open spec fn fits(self, len: nat) -> bool {
        self.overwrites(len) ==> self.index < len
    }
}

/// The genes of an offspring of a parent with `genes`.
pub open spec fn mutated(genes: Seq<Command>, mutation: Mutation) -> Seq<Command> {
    if mutation.appends(genes.len()) {
        genes.push(mutation.opcode)
    } else if mutation.overwrites(genes.len()) {
        genes.update(mutation.index as int, mutation.opcode)
    } else {
        genes
    }
}

/// World, state and store after `Reproduce` in direction `dir` with an
/// offspring that carries `child`. Nothing changes below the energy
/// threshold or if the neighbour is occupied; else a newborn is added to the
/// store at the neighbour, the neighbour holds its handle, and the parent
/// pays the cost.
pub open spec fn reproduced(
    world: WorldModel,
    stats: CreatureStats,
    store: CreatureMapModel,
    dir: (i8, i8),
    child: Seq<Command>,
) -> (WorldModel, CreatureStats, CreatureMapModel) {
    let to = adjusted(world, (stats.pos_x, stats.pos_y), dir);
    if stats.energy < REPRODUCE_THRESHOLD || world.tile(to.0, to.1).creature is Some {
        (world, stats, store)
    } else {
        (
            world.with_occupant(to.0, to.1, Some(store.next_handle())),
            CreatureStats { energy: (stats.energy - REPRODUCE_COST) as u32, ..stats },
            store.add(to.0, to.1, child),
        )
    }
}

/// `Reproduce` in direction `dir` finds a stamp for the offspring, if there
/// is to be one.
pub open spec fn reproduce_fits(
    world: WorldModel,
    stats: CreatureStats,
    store: CreatureMapModel,
    dir: (i8, i8),
) -> bool {
    let to = adjusted(world, (stats.pos_x, stats.pos_y), dir);
    stats.energy >= REPRODUCE_THRESHOLD && world.tile(to.0, to.1).creature is None
        ==> store.issued < u64::MAX
}

/// The outcome of every draw that one opcode may make.
pub struct Draw {
    /// The direction drawn.
    pub dir: (i8, i8),
    /// The mutation drawn.
    pub mutation: Mutation,
}

impl Draw {
    /// The draw is one that an opcode of a program `genes` can make.
    pub open spec fn possible(self, genes: Seq<Command>) -> bool {
        is_step(self.dir) && self.mutation.fits(genes.len())
    }
}

/// World, acting creature and store in the middle of a turn.
pub struct Turn {
    pub world: WorldModel,
    pub stats: CreatureStats,
    pub store: CreatureMapModel,
}

impl Turn {
    /// Food and energy in the world, the store and the acting creature.
    pub open spec fn budget(self) -> nat {
        total_food(self.world.tiles) + total_energy(self.store.slots) + self.stats.energy as nat
    }

    /// The world and the store are well formed and the acting creature
    /// stands on the grid.
    pub open spec fn wf(self) -> bool {
        &&& self.world.wf()
        &&& self.world.contains(self.stats.pos_x, self.stats.pos_y)
        &&& self.store.wf()
    }
}

/// The turn made of a world, an acting creature and a store.
pub open spec fn turn_of(world: WorldModel, stats: CreatureStats, store: CreatureMapModel) -> Turn {
    Turn { world, stats, store }
}

/// The opcode stays within the machine's numbers when it runs with `draw`:
/// what it adds to the creature's energy fits, and a stamp is left for an
/// offspring.
pub open spec fn step_fits(command: Command, turn: Turn, draw: Draw) -> bool {
    match command {
        Command::Eat => eat_fits(turn.world, turn.stats, draw.dir),
        Command::Attack => attack_fits(turn.world, turn.stats, turn.store, draw.dir),
        Command::Reproduce => reproduce_fits(turn.world, turn.stats, turn.store, draw.dir),
        _ => true,
    }
}

/// The turn after one opcode of a creature with the program `genes`, given
/// what was drawn.
pub open spec fn step(command: Command, turn: Turn, genes: Seq<Command>, draw: Draw) -> Turn {
    match command {
        Command::Nop => turn,
        Command::LookForFood => Turn { stats: sensed_food(turn.world, turn.stats), ..turn },
        Command::LookForCreature => Turn {
            stats: sensed_creatures(turn.world, turn.stats),
            ..turn
        },
        Command::Move => {
            let (world, stats) = moved(turn.world, turn.stats, draw.dir);
            Turn { world, stats, ..turn }
        },
        Command::Eat => {
            let (world, stats) = eaten(turn.world, turn.stats, draw.dir);
            Turn { world, stats, ..turn }
        },
        Command::Attack => {
            let (world, stats, store) = attacked(turn.world, turn.stats, turn.store, draw.dir);
            Turn { world, stats, store }
        },
        Command::Reproduce => {
            let (world, stats, store) = reproduced(
                turn.world,
                turn.stats,
                turn.store,
                draw.dir,
                mutated(genes, draw.mutation),
            );
            Turn { world, stats, store }
        },
        Command::Invert => Turn { stats: inverted(turn.stats), ..turn },
    }
}

/// `Eat` on an unoccupied neighbour moves food into energy: the creature
/// gains the lesser of the quota and the food on the tile, and the tile loses
/// as much.
pub proof fn lemma_eat_moves_a_bite(world: WorldModel, stats: CreatureStats, dir: (i8, i8))
    requires
        world.wf(),
        world.contains(stats.pos_x, stats.pos_y),
        is_step(dir),
        world.tile(
            adjusted(world, (stats.pos_x, stats.pos_y), dir).0,
            adjusted(world, (stats.pos_x, stats.pos_y), dir).1,
        ).creature is None,
        eat_fits(world, stats, dir),
    ensures
        ({
            let to = adjusted(world, (stats.pos_x, stats.pos_y), dir);
            let food = world.tile(to.0, to.1).food;
            let taken = if food < FOOD_TAKEN {
                food
            } else {
                FOOD_TAKEN
            };
            let (after, fed) = eaten(world, stats, dir);
            &&& fed.energy == stats.energy + taken
            &&& after.tile(to.0, to.1).food == food - taken
            &&& total_food(after.tiles) + fed.energy == total_food(world.tiles) + stats.energy
        }),
{
    let to = adjusted(world, (stats.pos_x, stats.pos_y), dir);
    let tile = world.tile(to.0, to.1);
    let t = Tile { food: (tile.food - bite(tile.food)) as u32, ..tile };
    lemma_adjusted_on_grid(world, (stats.pos_x, stats.pos_y), dir);
    lemma_tile_after(world, to.0, to.1, t, to.0, to.1);
    lemma_index_in_range(world.width, world.height, to.0, to.1);
    lemma_total_food_update(world.tiles, world.index_of(to.0, to.1), t);
}

/// `Attack` on a creature with energy `E`: up to the damage amount the
/// attacker gains `E`, the victim no longer resolves and its tile is empty;
/// above it the victim keeps `E` less the damage amount and the attacker
/// gains the damage amount.
pub proof fn lemma_attack_outcome(
    world: WorldModel,
    stats: CreatureStats,
    store: CreatureMapModel,
    dir: (i8, i8),
    id: CreatureId,
)
    requires
        world.wf(),
        world.contains(stats.pos_x, stats.pos_y),
        is_step(dir),
        world.tile(
            adjusted(world, (stats.pos_x, stats.pos_y), dir).0,
            adjusted(world, (stats.pos_x, stats.pos_y), dir).1,
        ).creature == Some(id),
        store.resolve(id) is Some,
        attack_fits(world, stats, store, dir),
    ensures
        ({
            let to = adjusted(world, (stats.pos_x, stats.pos_y), dir);
            let energy = store.resolve(id)->0.stats.energy;
            let (after, fed, kept) = attacked(world, stats, store, dir);
            if energy <= ENERGY_TAKEN {
                &&& fed.energy == stats.energy + energy
                &&& kept.resolve(id) is None
                &&& after.tile(to.0, to.1).creature is None
            } else {
                &&& fed.energy == stats.energy + ENERGY_TAKEN
                &&& kept.resolve(id) is Some
                &&& kept.resolve(id)->0.stats.energy == energy - ENERGY_TAKEN
                &&& after == world
            }
        }),
{
    let to = adjusted(world, (stats.pos_x, stats.pos_y), dir);
    let t = Tile { creature: None, ..world.tile(to.0, to.1) };
    lemma_adjusted_on_grid(world, (stats.pos_x, stats.pos_y), dir);
    lemma_tile_after(world, to.0, to.1, t, to.0, to.1);
}

/// `Reproduce` with enough energy into an unoccupied neighbour costs the
/// parent the fixed cost, and the offspring of a parent with a full program
/// has a full program whatever was drawn.
pub proof fn lemma_reproduce_outcome(
    world: WorldModel,
    stats: CreatureStats,
    store: CreatureMapModel,
    dir: (i8, i8),
    genes: Seq<Command>,
    mutation: Mutation,
)
    requires
        world.wf(),
        world.contains(stats.pos_x, stats.pos_y),
        is_step(dir),
        store.wf(),
        store.slots.len() < usize::MAX,
        stats.energy >= REPRODUCE_THRESHOLD,
        world.tile(
            adjusted(world, (stats.pos_x, stats.pos_y), dir).0,
            adjusted(world, (stats.pos_x, stats.pos_y), dir).1,
        ).creature is None,
        mutation.fits(genes.len()),
    ensures
        ({
            let to = adjusted(world, (stats.pos_x, stats.pos_y), dir);
            let (after, parent, kept) = reproduced(
                world,
                stats,
                store,
                dir,
                mutated(genes, mutation),
            );
            let child = store.next_handle();
            &&& parent.energy == stats.energy - REPRODUCE_COST
            &&& after.tile(to.0, to.1).creature == Some(child)
            &&& kept.resolve(child) is Some
            &&& kept.resolve(child)->0 == CreatureModel::newborn(
                child,
                to.0,
                to.1,
                mutated(genes, mutation),
            )
            &&& genes.len() == NUM_MAX_GENES ==> kept.resolve(child)->0.genes.len()
                == NUM_MAX_GENES
        }),
{
    let to = adjusted(world, (stats.pos_x, stats.pos_y), dir);
    let child = store.next_handle();
    let t = Tile { creature: Some(child), ..world.tile(to.0, to.1) };
    lemma_adjusted_on_grid(world, (stats.pos_x, stats.pos_y), dir);
    lemma_tile_after(world, to.0, to.1, t, to.0, to.1);
    if store.free.len() > 0 {
        assert(store.free[store.free.len() - 1] == child.slot());
    }
}

/// Where all food and energy of a turn fit the energy type and the store has
/// a stamp left, every opcode stays within the machine's numbers, whatever is
/// drawn.
pub proof fn lemma_budget_covers(command: Command, turn: Turn, draw: Draw)
    requires
        turn.wf(),
        turn.budget() <= u32::MAX,
        turn.store.issued < u64::MAX,
        is_step(draw.dir),
    ensures
        step_fits(command, turn, draw),
{
    let pos = (turn.stats.pos_x, turn.stats.pos_y);
    let to = adjusted(turn.world, pos, draw.dir);
    lemma_adjusted_on_grid(turn.world, pos, draw.dir);
    lemma_index_in_range(turn.world.width, turn.world.height, to.0, to.1);
    let index = turn.world.index_of(to.0, to.1);
    lemma_total_food_update(turn.world.tiles, index, turn.world.tiles[index]);
    match turn.world.tile(to.0, to.1).creature {
        Some(id) => {
            if turn.store.resolve(id) is Some {
                lemma_total_energy_update(turn.store.slots, id.slot() as int, None);
            }
        },
        None => {},
    }
}

impl Command {
    /// Runs this opcode for the creature with state `stats` and program
    /// `gene`. What it does is `step` for some draw that the opcode can make;
    /// food and energy are moved, never made or lost.
    pub fn execute(
        &self,
        world: &mut World,
        stats: &mut CreatureStats,
        gene: &Vec<Command>,
        creatures: &mut CreatureMap,
    )
        requires
            turn_of(old(world)@, *old(stats), old(creatures)@).wf(),
            1 <= gene@.len() <= NUM_MAX_GENES,
            forall|draw: Draw|
                draw.possible(gene@) ==> #[trigger] step_fits(
                    *self,
                    turn_of(old(world)@, *old(stats), old(creatures)@),
                    draw,
                ),
        ensures
            exists|draw: Draw|
                draw.possible(gene@) && turn_of(final(world)@, *final(stats), final(creatures)@)
                    == #[trigger] step(
                    *self,
                    turn_of(old(world)@, *old(stats), old(creatures)@),
                    gene@,
                    draw,
                ),
            turn_of(final(world)@, *final(stats), final(creatures)@).wf(),
            turn_of(final(world)@, *final(stats), final(creatures)@).budget() == turn_of(
                old(world)@,
                *old(stats),
                old(creatures)@,
            ).budget(),
            final(world)@.width == old(world)@.width,
            final(world)@.height == old(world)@.height,
            old(creatures)@.issued <= final(creatures)@.issued <= old(creatures)@.issued + 1,
            final(stats).id == old(stats).id,
            consistent(turn_of(old(world)@, *old(stats), old(creatures)@)) ==> consistent(
                turn_of(final(world)@, *final(stats), final(creatures)@),
            ),
    {
        let ghost before = turn_of(world@, *stats, creatures@);
        let ghost idle = Mutation { roll: 100, opcode: Command::Nop, append_roll: 0, index: 0 };
        let ghost still = Draw { dir: (1i8, 0i8), mutation: idle };
        match self {
            Command::Nop => {
                proof {
                    assert(before == step(*self, before, gene@, still));
                    if consistent(before) {
                        lemma_step_consistent(*self, before, gene@, still);
                    }
                }
            },
            Command::LookForFood => {
                Command::c_lookfood(world, stats);
                proof {
                    assert(turn_of(world@, *stats, creatures@) == step(
                        *self,
                        before,
                        gene@,
                        still,
                    ));
                    if consistent(before) {
                        lemma_step_consistent(*self, before, gene@, still);
                    }
                }
            },
            Command::LookForCreature => {
                Command::c_lookcreatures(world, stats);
                proof {
                    assert(turn_of(world@, *stats, creatures@) == step(
                        *self,
                        before,
                        gene@,
                        still,
                    ));
                    if consistent(before) {
                        lemma_step_consistent(*self, before, gene@, still);
                    }
                }
            },
            Command::Move => {
                Command::c_move(world, stats);
                proof {
                    let dir = choose|dir: (i8, i8)|
                        is_step(dir) && (world@, *stats) == #[trigger] moved(
                            before.world,
                            before.stats,
                            dir,
                        );
                    let draw = Draw { dir, mutation: idle };
                    assert(turn_of(world@, *stats, creatures@) == step(
                        *self,
                        before,
                        gene@,
                        draw,
                    ));
                    if consistent(before) {
                        lemma_step_consistent(*self, before, gene@, draw);
                    }
                }
            },
            Command::Eat => {
                proof {
                    assert forall|dir: (i8, i8)| is_step(dir) implies #[trigger] eat_fits(
                        before.world,
                        before.stats,
                        dir,
                    ) by {
                        let draw = Draw { dir, mutation: idle };
                        assert(draw.possible(gene@));
                        assert(step_fits(*self, before, draw));
                    }
                }
                Command::c_eat(world, stats);
                proof {
                    let dir = choose|dir: (i8, i8)|
                        is_step(dir) && (world@, *stats) == #[trigger] eaten(
                            before.world,
                            before.stats,
                            dir,
                        );
                    let draw = Draw { dir, mutation: idle };
                    assert(turn_of(world@, *stats, creatures@) == step(
                        *self,
                        before,
                        gene@,
                        draw,
                    ));
                    if consistent(before) {
                        lemma_step_consistent(*self, before, gene@, draw);
                    }
                }
            },
            Command::Attack => {
                proof {
                    assert forall|dir: (i8, i8)| is_step(dir) implies #[trigger] attack_fits(
                        before.world,
                        before.stats,
                        before.store,
                        dir,
                    ) by {
                        let draw = Draw { dir, mutation: idle };
                        assert(draw.possible(gene@));
                        assert(step_fits(*self, before, draw));
                    }
                }
                Command::c_attack(world, stats, creatures);
                proof {
                    let dir = choose|dir: (i8, i8)|
                        is_step(dir) && (world@, *stats, creatures@) == #[trigger] attacked(
                            before.world,
                            before.stats,
                            before.store,
                            dir,
                        );
                    let draw = Draw { dir, mutation: idle };
                    assert(turn_of(world@, *stats, creatures@) == step(
                        *self,
                        before,
                        gene@,
                        draw,
                    ));
                    if consistent(before) {
                        lemma_step_consistent(*self, before, gene@, draw);
                    }
                }
            },
            Command::Reproduce => {
                proof {
                    assert forall|dir: (i8, i8)| is_step(dir) implies #[trigger] reproduce_fits(
                        before.world,
                        before.stats,
                        before.store,
                        dir,
                    ) by {
                        let draw = Draw { dir, mutation: idle };
                        assert(draw.possible(gene@));
                        assert(step_fits(*self, before, draw));
                    }
                }
                Command::c_reproduce(world, stats, gene, creatures);
                proof {
                    let (dir, mutation) = choose|dir: (i8, i8), mutation: Mutation|
                        is_step(dir) && mutation.fits(gene@.len()) && (
                            world@,
                            *stats,
                            creatures@,
                        ) == #[trigger] reproduced(
                            before.world,
                            before.stats,
                            before.store,
                            dir,
                            mutated(gene@, mutation),
                        );
                    let draw = Draw { dir, mutation };
                    assert(turn_of(world@, *stats, creatures@) == step(
                        *self,
                        before,
                        gene@,
                        draw,
                    ));
                    if consistent(before) {
                        lemma_step_consistent(*self, before, gene@, draw);
                    }
                }
            },
            Command::Invert => {
                Command::c_invert(stats);
                proof {
                    assert(turn_of(world@, *stats, creatures@) == step(
                        *self,
                        before,
                        gene@,
                        still,
                    ));
                    if consistent(before) {
                        lemma_step_consistent(*self, before, gene@, still);
                    }
                }
            },
        }
    }

    /// The opcode's name.
    pub fn name(&self) -> (name: &'static str)
        ensures
            name@ == (match *self {
                Command::Nop => "Nop"@,
                Command::LookForFood => "LookForFood"@,
                Command::LookForCreature => "LookForCreature"@,
                Command::Move => "Move"@,
                Command::Eat => "Eat"@,
                Command::Attack => "Attack"@,
                Command::Reproduce => "Reproduce"@,
                Command::Invert => "Invert"@,
            }),
    {
        match self {
            Command::Nop => "Nop",
            Command::LookForFood => "LookForFood",
            Command::LookForCreature => "LookForCreature",
            Command::Move => "Move",
            Command::Eat => "Eat",
            Command::Attack => "Attack",
            Command::Reproduce => "Reproduce",
            Command::Invert => "Invert",
        }
    }

    /// `LookForFood`.
    pub fn c_lookfood(world: &World, stats: &mut CreatureStats)
        requires
            world@.wf(),
            world@.contains(old(stats).pos_x, old(stats).pos_y),
        ensures
            *final(stats) == sensed_food(world@, *old(stats)),
    {
        let pos = (stats.pos_x, stats.pos_y);
        stats.e = Self::food_toward(world, pos, (1, 0));
        stats.w = Self::food_toward(world, pos, (-1, 0));
        stats.n = Self::food_toward(world, pos, (0, -1));
        stats.s = Self::food_toward(world, pos, (0, 1));
    }

    /// The food reading of the neighbour of `pos` in direction `dir`.
    fn food_toward(world: &World, pos: (u32, u32), dir: (i8, i8)) -> (reading: u8)
        requires
            world@.wf(),
            world@.contains(pos.0, pos.1),
            is_step(dir),
        ensures
            reading == food_reading(
                world@.tile(adjusted(world@, pos, dir).0, adjusted(world@, pos, dir).1).food,
            ),
    {
        let want = Creature::adjust_pos(world, pos, dir);
        let tile = world.get_tile(want.0, want.1);
        if tile.food >= 255 {
            255
        } else {
            tile.food as u8
        }
    }

    /// `LookForCreature`.
    pub fn c_lookcreatures(world: &World, stats: &mut CreatureStats)
        requires
            world@.wf(),
            world@.contains(old(stats).pos_x, old(stats).pos_y),
        ensures
            *final(stats) == sensed_creatures(world@, *old(stats)),
    {
        let pos = (stats.pos_x, stats.pos_y);
        stats.e = Self::creature_toward(world, pos, (1, 0));
        stats.w = Self::creature_toward(world, pos, (-1, 0));
        stats.n = Self::creature_toward(world, pos, (0, -1));
        stats.s = Self::creature_toward(world, pos, (0, 1));
    }

    /// The occupancy reading of the neighbour of `pos` in direction `dir`.
    fn creature_toward(world: &World, pos: (u32, u32), dir: (i8, i8)) -> (reading: u8)
        requires
            world@.wf(),
            world@.contains(pos.0, pos.1),
            is_step(dir),
        ensures
            reading == creature_reading(world@, adjusted(world@, pos, dir)),
    {
        let want = Creature::adjust_pos(world, pos, dir);
        let tile = world.get_tile(want.0, want.1);
        if tile.creature.is_none() {
            0
        } else {
            255
        }
    }

    /// `Invert`.
    pub fn c_invert(stats: &mut CreatureStats)
        ensures
            *final(stats) == inverted(*old(stats)),
    {
        stats.e = 255 - stats.e;
        stats.w = 255 - stats.w;
        stats.n = 255 - stats.n;
        stats.s = 255 - stats.s;
    }

    /// `Move` in the direction `dir`.
    pub fn move_toward(world: &mut World, stats: &mut CreatureStats, dir: (i8, i8))
        requires
            old(world)@.wf(),
            old(world)@.contains(old(stats).pos_x, old(stats).pos_y),
            is_step(dir),
        ensures
            (final(world)@, *final(stats)) == moved(old(world)@, *old(stats), dir),
            final(world)@.wf(),
            final(world)@.width == old(world)@.width,
            final(world)@.height == old(world)@.height,
            final(world)@.contains(final(stats).pos_x, final(stats).pos_y),
            total_food(final(world)@.tiles) == total_food(old(world)@.tiles),
    {
        let want = Creature::adjust_pos(world, (stats.pos_x, stats.pos_y), dir);
        if world.get_tile(want.0, want.1).creature.is_none() {
            proof {
                let w0 = world@;
                let w1 = w0.with_occupant(stats.pos_x, stats.pos_y, None);
                lemma_index_in_range(w0.width, w0.height, stats.pos_x, stats.pos_y);
                lemma_index_in_range(w0.width, w0.height, want.0, want.1);
                lemma_total_food_update(
                    w0.tiles,
                    w0.index_of(stats.pos_x, stats.pos_y),
                    Tile { creature: None, ..w0.tile(stats.pos_x, stats.pos_y) },
                );
                lemma_total_food_update(
                    w1.tiles,
                    w1.index_of(want.0, want.1),
                    Tile { creature: Some(stats.id), ..w1.tile(want.0, want.1) },
                );
            }
            world.get_tile_mut(stats.pos_x, stats.pos_y).creature = None;
            world.get_tile_mut(want.0, want.1).creature = Some(stats.id);
            stats.pos_x = want.0;
            stats.pos_y = want.1;
        }
    }

    /// `Move`: draws a direction and moves there if the way is free.
    pub fn c_move(world: &mut World, stats: &mut CreatureStats)
        requires
            old(world)@.wf(),
            old(world)@.contains(old(stats).pos_x, old(stats).pos_y),
        ensures
            exists|dir: (i8, i8)|
                is_step(dir) && (final(world)@, *final(stats)) == #[trigger] moved(
                    old(world)@,
                    *old(stats),
                    dir,
                ),
            final(world)@.wf(),
            final(world)@.width == old(world)@.width,
            final(world)@.height == old(world)@.height,
            final(world)@.contains(final(stats).pos_x, final(stats).pos_y),
            total_food(final(world)@.tiles) == total_food(old(world)@.tiles),
    {
        let dir = stats.get_proba_dir();
        Self::move_toward(world, stats, dir);
    }

    /// `Eat` in the direction `dir`.
    pub fn eat_toward(world: &mut World, stats: &mut CreatureStats, dir: (i8, i8))
        requires
            old(world)@.wf(),
            old(world)@.contains(old(stats).pos_x, old(stats).pos_y),
            is_step(dir),
            eat_fits(old(world)@, *old(stats), dir),
        ensures
            (final(world)@, *final(stats)) == eaten(old(world)@, *old(stats), dir),
            final(world)@.wf(),
            final(world)@.width == old(world)@.width,
            final(world)@.height == old(world)@.height,
            total_food(final(world)@.tiles) + final(stats).energy == total_food(
                old(world)@.tiles,
            ) + old(stats).energy,
    {
        let want = Creature::adjust_pos(world, (stats.pos_x, stats.pos_y), dir);
        let ghost w0 = world@;
        proof {
            lemma_index_in_range(w0.width, w0.height, want.0, want.1);
        }
        let tile = world.get_tile_mut(want.0, want.1);
        if tile.creature.is_some() {
            proof {
                assert(w0.with_tile(want.0, want.1, *tile).tiles =~= w0.tiles);
            }
            return ;
        }
        proof {
            lemma_total_food_update(
                w0.tiles,
                w0.index_of(want.0, want.1),
                Tile { food: (tile.food - bite(tile.food)) as u32, ..*tile },
            );
        }
        if tile.food >= FOOD_TAKEN {
            stats.energy += FOOD_TAKEN;
            tile.food -= FOOD_TAKEN;
        } else {
            stats.energy += tile.food;
            tile.food = 0;
        }
    }

    /// `Eat`: draws a direction and takes a bite from the tile there if
    /// nobody stands on it.
    pub fn c_eat(world: &mut World, stats: &mut CreatureStats)
        requires
            old(world)@.wf(),
            old(world)@.contains(old(stats).pos_x, old(stats).pos_y),
            forall|dir: (i8, i8)| is_step(dir) ==> #[trigger] eat_fits(old(world)@, *old(stats), dir),
        ensures
            exists|dir: (i8, i8)|
                is_step(dir) && (final(world)@, *final(stats)) == #[trigger] eaten(
                    old(world)@,
                    *old(stats),
                    dir,
                ),
            final(world)@.wf(),
            final(world)@.width == old(world)@.width,
            final(world)@.height == old(world)@.height,
            total_food(final(world)@.tiles) + final(stats).energy == total_food(
                old(world)@.tiles,
            ) + old(stats).energy,
    {
        let dir = stats.get_proba_dir();
        Self::eat_toward(world, stats, dir);
    }

    /// `Attack` in the direction `dir`.
    pub fn attack_toward(
        world: &mut World,
        stats: &mut CreatureStats,
        creatures: &mut CreatureMap,
        dir: (i8, i8),
    )
        requires
            old(world)@.wf(),
            old(world)@.contains(old(stats).pos_x, old(stats).pos_y),
            is_step(dir),
            attack_fits(old(world)@, *old(stats), old(creatures)@, dir),
        ensures
            (final(world)@, *final(stats), final(creatures)@) == attacked(
                old(world)@,
                *old(stats),
                old(creatures)@,
                dir,
            ),
            final(world)@.wf(),
            final(world)@.width == old(world)@.width,
            final(world)@.height == old(world)@.height,
            total_food(final(world)@.tiles) == total_food(old(world)@.tiles),
            total_energy(final(creatures)@.slots) + final(stats).energy == total_energy(
                old(creatures)@.slots,
            ) + old(stats).energy,
            old(creatures)@.wf() ==> final(creatures)@.wf(),
            final(creatures)@.issued == old(creatures)@.issued,
    {
        let want = Creature::adjust_pos(world, (stats.pos_x, stats.pos_y), dir);
        let id_victim = match world.get_tile(want.0, want.1).creature {
            None => {
                return ;
            },
            Some(id) => id,
        };
        let ghost w0 = world@;
        let ghost s0 = creatures@;
        let mut killed = false;
        proof {
            lemma_index_in_range(w0.width, w0.height, want.0, want.1);
            if s0.resolve(id_victim) is Some {
                lemma_total_energy_update(s0.slots, id_victim.slot() as int, None);
                lemma_total_energy_update(
                    s0.slots,
                    id_victim.slot() as int,
                    Some(wounded(s0.resolve(id_victim)->0)),
                );
            }
        }
        match creatures.get_creature_mut(id_victim) {
            None => {},
            Some(victim) => {
                if victim.stats.energy <= ENERGY_TAKEN {
                    stats.energy += victim.stats.energy;
                    killed = true;
                } else {
                    victim.stats.energy -= ENERGY_TAKEN;
                    stats.energy += ENERGY_TAKEN;
                }
            },
        }
        if killed {
            proof {
                assert(creatures@.slots =~= s0.slots);
                lemma_total_food_update(
                    w0.tiles,
                    w0.index_of(want.0, want.1),
                    Tile { creature: None, ..w0.tile(want.0, want.1) },
                );
            }
            world.get_tile_mut(want.0, want.1).creature = None;
            creatures.deallocate(id_victim);
        }
    }

    /// `Attack`: draws a direction and strikes whoever stands there.
    pub fn c_attack(world: &mut World, stats: &mut CreatureStats, creatures: &mut CreatureMap)
        requires
            old(world)@.wf(),
            old(world)@.contains(old(stats).pos_x, old(stats).pos_y),
            forall|dir: (i8, i8)|
                is_step(dir) ==> #[trigger] attack_fits(
                    old(world)@,
                    *old(stats),
                    old(creatures)@,
                    dir,
                ),
        ensures
            exists|dir: (i8, i8)|
                is_step(dir) && (final(world)@, *final(stats), final(creatures)@)
                    == #[trigger] attacked(old(world)@, *old(stats), old(creatures)@, dir),
            final(world)@.wf(),
            final(world)@.width == old(world)@.width,
            final(world)@.height == old(world)@.height,
            total_food(final(world)@.tiles) == total_food(old(world)@.tiles),
            total_energy(final(creatures)@.slots) + final(stats).energy == total_energy(
                old(creatures)@.slots,
            ) + old(stats).energy,
            old(creatures)@.wf() ==> final(creatures)@.wf(),
            final(creatures)@.issued == old(creatures)@.issued,
    {
        let dir = stats.get_proba_dir();
        Self::attack_toward(world, stats, creatures, dir);
    }

    /// The genes of an offspring: a copy of `gene` with `mutation` applied.
    pub fn mutate_genes(gene: &Vec<Command>, mutation: Mutation) -> (new_genes: Vec<Command>)
        requires
            mutation.fits(gene@.len()),
        ensures
            new_genes@ == mutated(gene@, mutation),
            gene@.len() == NUM_MAX_GENES ==> new_genes@.len() == NUM_MAX_GENES,
            1 <= gene@.len() <= NUM_MAX_GENES ==> 1 <= new_genes@.len() <= NUM_MAX_GENES,
    {
        let mut new_genes: Vec<Command> = Vec::new();
        let mut i: usize = 0;
        while i < gene.len()
            invariant
                i <= gene@.len(),
                new_genes@ == gene@.take(i as int),
            decreases gene@.len() - i,
        {
            new_genes.push(gene[i]);
            proof {
                assert(new_genes@ =~= gene@.take(i + 1));
            }
            i = i + 1;
        }
        proof {
            assert(gene@.take(i as int) =~= gene@);
        }
        if mutation.roll < MUTATION_CHANCE {
            if new_genes.len() < NUM_MAX_GENES && mutation.append_roll < NEW_GENE_CHANCE {
                new_genes.push(mutation.opcode);
            } else {
                new_genes[mutation.index] = mutation.opcode;
            }
        }
        new_genes
    }

    /// Draws the numbers that decide a mutation of a program of `len`
    /// genes; what is not needed is not drawn.
    pub fn draw_mutation(len: usize) -> (mutation: Mutation)
        requires
            1 <= len <= NUM_MAX_GENES,
        ensures
            mutation.fits(len as nat),
            mutation.roll < 100,
            mutation.append_roll < 100,
            mutation.index < len,
    {
        let mut mutation = Mutation { roll: 0, opcode: Command::Nop, append_roll: 0, index: 0 };
        mutation.roll = random_below(100);
        if mutation.roll < MUTATION_CHANCE {
            let number: u32 = random_below(NUM_COMMANDS);
            mutation.opcode = Command::from_u32(number).unwrap();
            mutation.append_roll = random_below(100);
            if !(len < NUM_MAX_GENES && mutation.append_roll < NEW_GENE_CHANCE) {
                mutation.index = random_below(len as u32) as usize;
            }
        }
        mutation
    }

    /// `Reproduce` in the direction `dir`, with an offspring that carries
    /// `new_genes`.
    pub fn reproduce_toward(
        world: &mut World,
        stats: &mut CreatureStats,
        creatures: &mut CreatureMap,
        dir: (i8, i8),
        new_genes: Vec<Command>,
    )
        requires
            old(world)@.wf(),
            old(world)@.contains(old(stats).pos_x, old(stats).pos_y),
            is_step(dir),
            1 <= new_genes@.len() <= NUM_MAX_GENES,
            reproduce_fits(old(world)@, *old(stats), old(creatures)@, dir),
        ensures
            (final(world)@, *final(stats), final(creatures)@) == reproduced(
                old(world)@,
                *old(stats),
                old(creatures)@,
                dir,
                new_genes@,
            ),
            final(world)@.wf(),
            final(world)@.width == old(world)@.width,
            final(world)@.height == old(world)@.height,
            total_food(final(world)@.tiles) == total_food(old(world)@.tiles),
            old(creatures)@.wf() ==> final(creatures)@.wf() && total_energy(
                final(creatures)@.slots,
            ) + final(stats).energy == total_energy(old(creatures)@.slots) + old(stats).energy,
            old(creatures)@.issued <= final(creatures)@.issued <= old(creatures)@.issued + 1,
    {
        if stats.energy < REPRODUCE_THRESHOLD {
            return ;
        }
        let want = Creature::adjust_pos(world, (stats.pos_x, stats.pos_y), dir);
        if world.get_tile(want.0, want.1).creature.is_some() {
            return ;
        }
        let ghost w0 = world@;
        let ghost s0 = creatures@;
        let ghost child = CreatureModel::newborn(s0.next_handle(), want.0, want.1, new_genes@);
        proof {
            lemma_index_in_range(w0.width, w0.height, want.0, want.1);
            lemma_total_food_update(
                w0.tiles,
                w0.index_of(want.0, want.1),
                Tile { creature: Some(s0.next_handle()), ..w0.tile(want.0, want.1) },
            );
        }
        let id = creatures.add_creature(want.0, want.1, new_genes);
        proof {
            if s0.wf() {
                lemma_total_energy_push(s0.slots, None);
                let a = s0.allocate();
                let slot = id.slot() as int;
                if s0.free.len() > 0 {
                    assert(s0.free[s0.free.len() - 1] == slot);
                }
                assert(0 <= slot < a.slots.len());
                assert(a.slots[slot] is None);
                lemma_total_energy_update(a.slots, slot, Some(child));
            }
        }
        world.get_tile_mut(want.0, want.1).creature = Some(id);
        stats.energy -= REPRODUCE_COST;
    }

    /// `Reproduce`: with enough energy, draws a direction and, if nobody
    /// stands there, draws a mutation and places the offspring.
    pub fn c_reproduce(
        world: &mut World,
        stats: &mut CreatureStats,
        gene: &Vec<Command>,
        creatures: &mut CreatureMap,
    )
        requires
            old(world)@.wf(),
            old(world)@.contains(old(stats).pos_x, old(stats).pos_y),
            1 <= gene@.len() <= NUM_MAX_GENES,
            forall|dir: (i8, i8)|
                is_step(dir) ==> #[trigger] reproduce_fits(
                    old(world)@,
                    *old(stats),
                    old(creatures)@,
                    dir,
                ),
        ensures
            exists|dir: (i8, i8), mutation: Mutation|
                is_step(dir) && mutation.fits(gene@.len()) && (
                    final(world)@,
                    *final(stats),
                    final(creatures)@,
                ) == #[trigger] reproduced(
                    old(world)@,
                    *old(stats),
                    old(creatures)@,
                    dir,
                    mutated(gene@, mutation),
                ),
            final(world)@.wf(),
            final(world)@.width == old(world)@.width,
            final(world)@.height == old(world)@.height,
            total_food(final(world)@.tiles) == total_food(old(world)@.tiles),
            old(creatures)@.wf() ==> final(creatures)@.wf() && total_energy(
                final(creatures)@.slots,
            ) + final(stats).energy == total_energy(old(creatures)@.slots) + old(stats).energy,
            old(creatures)@.issued <= final(creatures)@.issued <= old(creatures)@.issued + 1,
    {
        let ghost idle = Mutation { roll: 100, opcode: Command::Nop, append_roll: 0, index: 0 };
        if stats.energy < REPRODUCE_THRESHOLD {
            proof {
                let t = reproduced(
                    world@,
                    *stats,
                    creatures@,
                    (1i8, 0i8),
                    mutated(gene@, idle),
                );
                assert(t == (world@, *stats, creatures@));
            }
            return ;
        }
        let dir = stats.get_proba_dir();
        let want = Creature::adjust_pos(world, (stats.pos_x, stats.pos_y), dir);
        if world.get_tile(want.0, want.1).creature.is_some() {
            proof {
                let t = reproduced(world@, *stats, creatures@, dir, mutated(gene@, idle));
                assert(t == (world@, *stats, creatures@));
            }
            return ;
        }
        let mutation = Self::draw_mutation(gene.len());
        let new_genes = Self::mutate_genes(gene, mutation);
        Self::reproduce_toward(world, stats, creatures, dir, new_genes);
    }
}

} // verus!
