//! A creature: its place, energy, sensors, gene program and dietary class.

pub mod command;

use crate::creature::command::lemma_budget_covers;
use crate::creature::command::step;
use crate::creature::command::step_fits;
use crate::creature::command::turn_of;
use crate::creature::command::Command;
use crate::creature::command::Draw;
use crate::creature::command::Mutation;
use crate::creature::command::NUM_MAX_GENES;
use crate::creature::command::Turn;
use crate::creaturemap::lemma_total_energy_update;
use crate::creaturemap::CreatureId;
use crate::creaturemap::CreatureMap;
use crate::occupancy::consistent;
use crate::occupancy::lemma_metabolised_consistent;
use crate::occupancy::reserved;
use crate::occupancy::settled;
use crate::random::random_below;
use crate::world::lemma_index_in_range;
use crate::world::lemma_total_food_update;
use crate::world::Tile;
use crate::world::World;
use crate::world::WorldModel;
use vstd::prelude::*;

verus! {

/// Energy a creature is born with.
pub const INITIAL_ENERGY: u32 = 100;

/// Value of every sensor register at birth.
pub const INITIAL_SENSOR: u8 = 128;

/// What a creature lives on; fixed at birth from its genes.
#[derive(Clone, Copy, PartialEq, Eq, Structural, Debug)]
pub enum CreatureType {
    Herbivore,
    Carnivore,
    Omnivore,
}

impl CreatureType {
    /// Energy this class burns per tick.
    pub open spec fn spec_upkeep(self) -> u32 {
        match self {
            CreatureType::Herbivore => 1,
            CreatureType::Carnivore => 5,
            CreatureType::Omnivore => 10,
        }
    }

    /// Energy this class burns per tick.
    pub fn upkeep(&self) -> (cost: u32)
        ensures
            cost == self.spec_upkeep(),
    {
        match self {
            CreatureType::Herbivore => 1,
            CreatureType::Carnivore => 5,
            CreatureType::Omnivore => 10,
        }
    }

    /// The class's name.
    pub fn name(&self) -> (name: &'static str)
        ensures
            name@ == (match *self {
                CreatureType::Herbivore => "Herbivore"@,
                CreatureType::Carnivore => "Carnivore"@,
                CreatureType::Omnivore => "Omnivore"@,
            }),
    {
        match self {
            CreatureType::Herbivore => "Herbivore",
            CreatureType::Carnivore => "Carnivore",
            CreatureType::Omnivore => "Omnivore",
        }
    }
}

/// The dietary class that a gene program implies: omnivore with both an
/// `Eat` and an `Attack`, carnivore with `Attack` alone, herbivore otherwise.
pub open spec fn diet_of(genes: Seq<Command>) -> CreatureType {
    if genes.contains(Command::Eat) && genes.contains(Command::Attack) {
        CreatureType::Omnivore
    } else if genes.contains(Command::Attack) {
        CreatureType::Carnivore
    } else {
        CreatureType::Herbivore
    }
}

/// The mutable state of a creature that its genes act on.
#[derive(Clone, Copy, Debug)]
pub struct CreatureStats {
    pub id: CreatureId,
    pub pos_x: u32,
    pub pos_y: u32,
    pub energy: u32,
    pub e: u8,
    pub w: u8,
    pub n: u8,
    pub s: u8,
}

/// The sum of the four direction weights: each register plus one.
pub open spec fn dice_total(stats: CreatureStats) -> u32 {
    (stats.e + stats.w + stats.n + stats.s + 4) as u32
}

/// The step that a dice value selects: east below the east weight, then
/// west, then north, and south for all that is left, the total included.
pub open spec fn direction_of(stats: CreatureStats, dice: u32) -> (i8, i8) {
    let e = stats.e + 1;
    let w = stats.w + 1;
    let n = stats.n + 1;
    if dice < e {
        (1i8, 0i8)
    } else if dice < e + w {
        (-1i8, 0i8)
    } else if dice < e + w + n {
        (0i8, -1i8)
    } else {
        (0i8, 1i8)
    }
}

/// `dir` is one step along one axis.
pub open spec fn is_step(dir: (i8, i8)) -> bool {
    dir == (1i8, 0i8) || dir == (-1i8, 0i8) || dir == (0i8, -1i8) || dir == (0i8, 1i8)
}

/// A coordinate after a move, brought back onto `[0, bound)`: below zero it
/// becomes the last, at or past the bound it loses the bound.
pub open spec fn wrap_coordinate(v: int, bound: int) -> int {
    if v < 0 {
        bound - 1
    } else if v >= bound {
        v - bound
    } else {
        v
    }
}

/// The position reached from `pos` by `dir` on the torus of `world`.
pub open spec fn adjusted(world: WorldModel, pos: (u32, u32), dir: (i8, i8)) -> (u32, u32) {
    (
        wrap_coordinate(pos.0 + dir.0, world.width as int) as u32,
        wrap_coordinate(pos.1 + dir.1, world.height as int) as u32,
    )
}

/// Every direction can be drawn, whatever the registers hold: each weight
/// is at least one.
pub proof fn lemma_every_direction_possible(stats: CreatureStats, dir: (i8, i8))
    requires
        is_step(dir),
    ensures
        exists|dice: u32| dice <= dice_total(stats) && #[trigger] direction_of(stats, dice) == dir,
{
    let e = (stats.e + 1) as u32;
    let w = (stats.w + 1) as u32;
    let n = (stats.n + 1) as u32;
    if dir == (1i8, 0i8) {
        assert(direction_of(stats, 0) == dir);
    } else if dir == (-1i8, 0i8) {
        assert(direction_of(stats, e) == dir);
    } else if dir == (0i8, -1i8) {
        assert(direction_of(stats, (e + w) as u32) == dir);
    } else {
        assert(direction_of(stats, (e + w + n) as u32) == dir);
    }
}

/// The dice values of each direction are a run of consecutive numbers:
/// east has as many as its weight and starts at zero, west and north follow
/// with as many as theirs, and south has all the rest up to the total, which
/// is one more than its weight.
pub proof fn lemma_direction_buckets(stats: CreatureStats, dice: u32)
    requires
        dice <= dice_total(stats),
    ensures
        direction_of(stats, dice) == (1i8, 0i8) <==> dice < stats.e + 1,
        direction_of(stats, dice) == (-1i8, 0i8) <==> stats.e + 1 <= dice < stats.e + stats.w + 2,
        direction_of(stats, dice) == (0i8, -1i8) <==> stats.e + stats.w + 2 <= dice < stats.e
            + stats.w + stats.n + 3,
        direction_of(stats, dice) == (0i8, 1i8) <==> stats.e + stats.w + stats.n + 3 <= dice,
        dice_total(stats) - (stats.e + stats.w + stats.n + 3) + 1 == stats.s + 2,
{
}

impl CreatureStats {
    /// The step that `dice` selects under the current registers.
    pub fn direction_for(&self, dice: u32) -> (dir: (i8, i8))
        ensures
            dir == direction_of(*self, dice),
    {
        let e: u32 = (self.e as u32) + 1;
        let w: u32 = (self.w as u32) + 1;
        let n: u32 = (self.n as u32) + 1;
        if dice < e {
            (1, 0)
        } else if dice < e + w {
            (-1, 0)
        } else if dice < e + w + n {
            (0, -1)
        } else {
            (0, 1)
        }
    }

    /// Draws a step at random, each direction weighted by its register plus
    /// one; the dice runs from zero to the total of the weights inclusive.
    pub fn get_proba_dir(&self) -> (dir: (i8, i8))
        ensures
            exists|dice: u32|
                dice <= dice_total(*self) && dir == #[trigger] direction_of(*self, dice),
            is_step(dir),
    {
        let e: u32 = (self.e as u32) + 1;
        let w: u32 = (self.w as u32) + 1;
        let n: u32 = (self.n as u32) + 1;
        let s: u32 = (self.s as u32) + 1;
        let total_proba: u32 = e + w + n + s;
        let dice: u32 = random_below(total_proba + 1);
        self.direction_for(dice)
    }
}

/// A creature.
#[derive(Clone)]
pub struct Creature {
    pub(crate) stats: CreatureStats,
    pub(crate) genes: Vec<Command>,
    pub(crate) ctype: CreatureType,
}

/// What a `Creature` is: its state, its genes in order, its class.
pub struct CreatureModel {
    pub stats: CreatureStats,
    pub genes: Seq<Command>,
    pub ctype: CreatureType,
}

impl CreatureModel {
    /// A gene program has between one and the maximum number of genes.
    pub open spec fn wf(self) -> bool {
        1 <= self.genes.len() <= NUM_MAX_GENES
    }

    /// A newborn at `(x, y)` with the handle `id` and the program `genes`.
    pub open spec fn newborn(id: CreatureId, x: u32, y: u32, genes: Seq<Command>) -> CreatureModel {
        CreatureModel {
            stats: CreatureStats {
                id,
                pos_x: x,
                pos_y: y,
                energy: INITIAL_ENERGY,
                e: INITIAL_SENSOR,
                w: INITIAL_SENSOR,
                n: INITIAL_SENSOR,
                s: INITIAL_SENSOR,
            },
            genes,
            ctype: diet_of(genes),
        }
    }
}

/// The turn after the first `n` genes of `genes` have run from `turn`, the
/// `k`-th with the draw `draws[k]`.
pub open spec fn run(genes: Seq<Command>, turn: Turn, draws: Seq<Draw>, n: nat) -> Turn
    decreases n,
{
    if n == 0 {
        turn
    } else {
        step(genes[n - 1], run(genes, turn, draws, (n - 1) as nat), genes, draws[n - 1])
    }
}

/// The turn after metabolism, and whether the creature lives on. A creature
/// with more energy than its upkeep pays the upkeep to its tile as food. Any
/// other leaves all its energy there, leaves the tile and is deallocated.
pub open spec fn metabolised(turn: Turn, ctype: CreatureType) -> (Turn, bool) {
    let cost = ctype.spec_upkeep();
    let x = turn.stats.pos_x;
    let y = turn.stats.pos_y;
    let tile = turn.world.tile(x, y);
    if turn.stats.energy <= cost {
        (
            Turn {
                world: turn.world.with_tile(
                    x,
                    y,
                    Tile { food: (tile.food + turn.stats.energy) as u32, creature: None },
                ),
                stats: CreatureStats { energy: 0, ..turn.stats },
                store: turn.store.deallocate(turn.stats.id),
            },
            false,
        )
    } else {
        (
            Turn {
                world: turn.world.with_tile(
                    x,
                    y,
                    Tile { food: (tile.food + cost) as u32, ..tile },
                ),
                stats: CreatureStats { energy: (turn.stats.energy - cost) as u32, ..turn.stats },
                store: turn.store,
            },
            true,
        )
    }
}

/// The draws are as many as the genes, and each is one that an opcode of
/// the program can make.
pub open spec fn draws_possible(draws: Seq<Draw>, genes: Seq<Command>) -> bool {
    &&& draws.len() == genes.len()
    &&& forall|k: int| 0 <= k < draws.len() ==> (#[trigger] draws[k]).possible(genes)
}

/// The turn after one tick of a creature with the program `genes` and the
/// class `ctype`, and whether it lives on. Without energy the creature is
/// dead and nothing happens; else every gene runs in order, the `k`-th with
/// the draw `draws[k]`, and metabolism follows.
pub open spec fn ticked(turn: Turn, genes: Seq<Command>, ctype: CreatureType, draws: Seq<Draw>) -> (
    Turn,
    bool,
) {
    if turn.stats.energy == 0 {
        (turn, false)
    } else {
        metabolised(run(genes, turn, draws, genes.len()), ctype)
    }
}

/// Metabolism stays within the machine's numbers: what the creature leaves
/// on its tile fits there.
pub open spec fn metabolism_fits(turn: Turn, ctype: CreatureType) -> bool {
    let cost = ctype.spec_upkeep();
    let left = if turn.stats.energy <= cost {
        turn.stats.energy
    } else {
        cost
    };
    turn.world.tile(turn.stats.pos_x, turn.stats.pos_y).food + left <= u32::MAX
}

/// Each of the first `n` genes stays within the machine's numbers when it
/// runs, the `k`-th with the draw `draws[k]`.
pub open spec fn run_fits(genes: Seq<Command>, turn: Turn, draws: Seq<Draw>, n: nat) -> bool
    decreases n,
{
    n == 0 || (run_fits(genes, turn, draws, (n - 1) as nat) && step_fits(
        genes[n - 1],
        run(genes, turn, draws, (n - 1) as nat),
        draws[n - 1],
    ))
}

/// The whole tick stays within the machine's numbers with the draws `draws`:
/// every gene and the metabolism after them. A creature without energy does
/// nothing.
pub open spec fn tick_fits(
    turn: Turn,
    genes: Seq<Command>,
    ctype: CreatureType,
    draws: Seq<Draw>,
) -> bool {
    turn.stats.energy == 0 || (run_fits(genes, turn, draws, genes.len()) && metabolism_fits(
        run(genes, turn, draws, genes.len()),
        ctype,
    ))
}

/// The tick stays within the machine's numbers whatever is drawn. That is
/// so where all food and energy together fit the energy type and the store
/// has a stamp for every gene, a bound that no opcode breaks; and it is so
/// where every gene and the metabolism fit for every sequence of draws.
pub open spec fn tick_bounded(turn: Turn, genes: Seq<Command>, ctype: CreatureType) -> bool {
    ||| turn.budget() <= u32::MAX && turn.store.issued + genes.len() <= u64::MAX
    ||| forall|draws: Seq<Draw>|
        draws_possible(draws, genes) ==> #[trigger] tick_fits(turn, genes, ctype, draws)
}

/// What fits for `n` genes fits for fewer.
pub proof fn lemma_run_fits_shorter(
    genes: Seq<Command>,
    turn: Turn,
    draws: Seq<Draw>,
    m: nat,
    n: nat,
)
    requires
        m <= n,
        run_fits(genes, turn, draws, n),
    ensures
        run_fits(genes, turn, draws, m),
    decreases n,
{
    if m < n {
        lemma_run_fits_shorter(genes, turn, draws, m, (n - 1) as nat);
    }
}

/// Only the draws of the genes that have run matter.
pub proof fn lemma_run_prefix(
    genes: Seq<Command>,
    turn: Turn,
    draws: Seq<Draw>,
    more: Seq<Draw>,
    n: nat,
)
    requires
        n <= draws.len() <= more.len(),
        forall|k: int| 0 <= k < n ==> draws[k] == more[k],
    ensures
        run(genes, turn, draws, n) == run(genes, turn, more, n),
    decreases n,
{
    if n > 0 {
        lemma_run_prefix(genes, turn, draws, more, (n - 1) as nat);
    }
}

/// Brings the coordinate `v` back onto `[0, b)` after a move.
fn check_boundaries(v: i64, b: i64) -> (wrapped: i64)
    requires
        b >= 0,
    ensures
        wrapped == wrap_coordinate(v as int, b as int),
{
    if v < 0 {
        return b - 1;
    } else if v >= b {
        return v - b;
    }
    v
}

impl Creature {
    /// The state, genes and class of this creature.
    pub open(crate) spec fn view(&self) -> CreatureModel {
        CreatureModel { stats: self.stats, genes: self.genes@, ctype: self.ctype }
    }

    /// A newborn at `(x, y)`; its class is read off `genes` here, once.
    pub fn new(id: CreatureId, x: u32, y: u32, genes: Vec<Command>) -> (creature: Creature)
        requires
            1 <= genes@.len() <= NUM_MAX_GENES,
        ensures
            creature@ == CreatureModel::newborn(id, x, y, genes@),
            creature@.wf(),
    {
        let mut eat_found = false;
        let mut attack_found = false;
        let mut i: usize = 0;
        while i < genes.len()
            invariant
                i <= genes@.len(),
                eat_found == genes@.take(i as int).contains(Command::Eat),
                attack_found == genes@.take(i as int).contains(Command::Attack),
            decreases genes@.len() - i,
        {
            let ghost before = genes@.take(i as int);
            let ghost after = genes@.take(i + 1);
            proof {
                assert(after =~= before.push(genes@[i as int]));
                assert(after[i as int] == genes@[i as int]);
                assert forall|c: Command| after.contains(c) <==> before.contains(c) || c
                    == genes@[i as int] by {
                    if before.contains(c) {
                        let k = choose|k: int| 0 <= k < before.len() && before[k] == c;
                        assert(after[k] == c);
                    }
                }
            }
            if genes[i] == Command::Eat {
                eat_found = true;
            } else if genes[i] == Command::Attack {
                attack_found = true;
            }
            i = i + 1;
        }
        proof {
            assert(genes@.take(i as int) =~= genes@);
        }
        let ctype = if eat_found && attack_found {
            CreatureType::Omnivore
        } else if attack_found {
            CreatureType::Carnivore
        } else {
            CreatureType::Herbivore
        };
        Creature {
            stats: CreatureStats {
                id,
                pos_x: x,
                pos_y: y,
                energy: INITIAL_ENERGY,
                e: INITIAL_SENSOR,
                w: INITIAL_SENSOR,
                n: INITIAL_SENSOR,
                s: INITIAL_SENSOR,
            },
            genes,
            ctype,
        }
    }

    /// This creature's handle.
    pub fn get_id(&self) -> (id: CreatureId)
        ensures
            id == self@.stats.id,
    {
        self.stats.id
    }

    /// The position reached from `pos` by `dir` on the torus of `world`. A
    /// single step from a position on the grid stays on the grid.
    pub fn adjust_pos(world: &World, pos: (u32, u32), dir: (i8, i8)) -> (adjusted_pos: (u32, u32))
        requires
            world@.contains(pos.0, pos.1),
        ensures
            adjusted_pos == adjusted(world@, pos, dir),
            -1 <= dir.0 <= 1 ==> adjusted_pos.0 < world@.width,
            -1 <= dir.1 <= 1 ==> adjusted_pos.1 < world@.height,
            pos.0 == 0 && dir.0 == -1 ==> adjusted_pos.0 == world@.width - 1,
            pos.0 == world@.width - 1 && dir.0 == 1 ==> adjusted_pos.0 == 0,
            pos.1 == 0 && dir.1 == -1 ==> adjusted_pos.1 == world@.height - 1,
            pos.1 == world@.height - 1 && dir.1 == 1 ==> adjusted_pos.1 == 0,
    {
        let size_v = world.get_size();
        let x: i64 = check_boundaries(pos.0 as i64 + dir.0 as i64, size_v.0 as i64);
        let y: i64 = check_boundaries(pos.1 as i64 + dir.1 as i64, size_v.1 as i64);
        (x as u32, y as u32)
    }

    /// One tick of this creature, taken out of `cmap` for its turn: every
    /// gene runs in order, then metabolism. Says whether the creature lives
    /// on. A creature without energy is dead at once and nothing runs.
    pub fn simulate(&mut self, world: &mut World, cmap: &mut CreatureMap) -> (alive: bool)
        requires
            old(self)@.wf(),
            turn_of(old(world)@, old(self)@.stats, old(cmap)@).wf(),
            tick_bounded(
                turn_of(old(world)@, old(self)@.stats, old(cmap)@),
                old(self)@.genes,
                old(self)@.ctype,
            ),
        ensures
            final(self)@.genes == old(self)@.genes,
            final(self)@.ctype == old(self)@.ctype,
            exists|draws: Seq<Draw>|
                draws_possible(draws, old(self)@.genes) && (
                    turn_of(final(world)@, final(self)@.stats, final(cmap)@),
                    alive,
                ) == #[trigger] ticked(
                    turn_of(old(world)@, old(self)@.stats, old(cmap)@),
                    old(self)@.genes,
                    old(self)@.ctype,
                    draws,
                ),
            alive ==> final(self)@.stats.energy > 0,
            final(self)@.stats.id == old(self)@.stats.id,
            consistent(turn_of(old(world)@, old(self)@.stats, old(cmap)@)) && old(
                self,
            )@.stats.energy != 0 ==> (if alive {
                consistent(turn_of(final(world)@, final(self)@.stats, final(cmap)@))
            } else {
                settled(final(world)@, final(cmap)@) && reserved(
                    final(cmap)@,
                    old(self)@.stats.id,
                )
            }),
            turn_of(final(world)@, final(self)@.stats, final(cmap)@).wf(),
            turn_of(final(world)@, final(self)@.stats, final(cmap)@).budget() <= turn_of(
                old(world)@,
                old(self)@.stats,
                old(cmap)@,
            ).budget(),
            consistent(turn_of(old(world)@, old(self)@.stats, old(cmap)@)) ==> turn_of(
                final(world)@,
                final(self)@.stats,
                final(cmap)@,
            ).budget() == turn_of(old(world)@, old(self)@.stats, old(cmap)@).budget(),
            final(world)@.width == old(world)@.width,
            final(world)@.height == old(world)@.height,
            old(cmap)@.issued <= final(cmap)@.issued,
            final(cmap)@.issued <= old(cmap)@.issued + old(self)@.genes.len(),
    {
        let ghost before = turn_of(world@, self.stats, cmap@);
        let ghost genes = self.genes@;
        if self.stats.energy == 0 {
            proof {
                let idle = Mutation { roll: 100, opcode: Command::Nop, append_roll: 0, index: 0 };
                let still = Draw { dir: (1i8, 0i8), mutation: idle };
                let draws = Seq::new(genes.len(), |k: int| still);
                assert(draws_possible(draws, genes));
                assert((before, false) == ticked(before, genes, self.ctype, draws));
            }
            return false;
        }
        let ghost mut draws: Seq<Draw> = Seq::empty();
        let ghost ctype = self.ctype;
        let ghost by_budget = before.budget() <= u32::MAX && before.store.issued + genes.len()
            <= u64::MAX;
        let ghost idle = Mutation { roll: 100, opcode: Command::Nop, append_roll: 0, index: 0 };
        let ghost still = Draw { dir: (1i8, 0i8), mutation: idle };
        let count = self.genes.len();
        let mut i: usize = 0;
        while i < count
            invariant
                i <= count,
                count == genes.len(),
                1 <= genes.len() <= NUM_MAX_GENES,
                self.genes@ == genes,
                self.ctype == ctype,
                before.stats.energy != 0,
                still == (Draw {
                    dir: (1i8, 0i8),
                    mutation: Mutation {
                        roll: 100,
                        opcode: Command::Nop,
                        append_roll: 0,
                        index: 0,
                    },
                }),
                by_budget == (before.budget() <= u32::MAX && before.store.issued + genes.len()
                    <= u64::MAX),
                !by_budget ==> forall|all: Seq<Draw>|
                    draws_possible(all, genes) ==> #[trigger] tick_fits(before, genes, ctype, all),
                draws.len() == i,
                forall|k: int| 0 <= k < draws.len() ==> (#[trigger] draws[k]).possible(genes),
                turn_of(world@, self.stats, cmap@) == run(genes, before, draws, i as nat),
                turn_of(world@, self.stats, cmap@).wf(),
                turn_of(world@, self.stats, cmap@).budget() == before.budget(),
                world@.width == before.world.width,
                world@.height == before.world.height,
                before.store.issued <= cmap@.issued <= before.store.issued + i,
                self.stats.id == before.stats.id,
                consistent(before) ==> consistent(turn_of(world@, self.stats, cmap@)),
            decreases count - i,
        {
            let ghost current = turn_of(world@, self.stats, cmap@);
            let g = self.genes[i];
            proof {
                assert forall|draw: Draw| draw.possible(genes) implies #[trigger] step_fits(
                    g,
                    current,
                    draw,
                ) by {
                    if by_budget {
                        lemma_budget_covers(g, current, draw);
                    } else {
                        let all = Seq::new(
                            genes.len(),
                            |k: int|
                                if k < i {
                                    draws[k]
                                } else if k == i {
                                    draw
                                } else {
                                    still
                                },
                        );
                        assert(draws_possible(all, genes));
                        assert(tick_fits(before, genes, ctype, all));
                        lemma_run_fits_shorter(genes, before, all, (i + 1) as nat, genes.len());
                        lemma_run_prefix(genes, before, draws, all, i as nat);
                    }
                }
            }
            g.execute(world, &mut self.stats, &self.genes, cmap);
            proof {
                let draw = choose|draw: Draw|
                    draw.possible(genes) && turn_of(world@, self.stats, cmap@) == #[trigger] step(
                        g,
                        current,
                        genes,
                        draw,
                    );
                let longer = draws.push(draw);
                lemma_run_prefix(genes, before, draws, longer, i as nat);
                draws = longer;
            }
            i = i + 1;
        }
        let ghost ran = turn_of(world@, self.stats, cmap@);
        let energy_loss: u32 = self.ctype.upkeep();
        proof {
            lemma_index_in_range(world@.width, world@.height, self.stats.pos_x, self.stats.pos_y);
            let index = world@.index_of(self.stats.pos_x, self.stats.pos_y);
            let tile = world@.tile(self.stats.pos_x, self.stats.pos_y);
            lemma_total_food_update(
                world@.tiles,
                index,
                Tile { food: (tile.food + self.stats.energy) as u32, creature: None },
            );
            lemma_total_food_update(
                world@.tiles,
                index,
                Tile { food: (tile.food + energy_loss) as u32, ..tile },
            );
            if cmap@.resolve(self.stats.id) is Some {
                lemma_total_energy_update(cmap@.slots, self.stats.id.slot() as int, None);
            }
            if consistent(ran) {
                lemma_metabolised_consistent(ran, self.ctype);
            }
        }
        proof {
            assert(draws_possible(draws, genes));
            assert(metabolised(ran, self.ctype) == ticked(before, genes, self.ctype, draws));
            if !by_budget {
                assert(tick_fits(before, genes, ctype, draws));
            }
            assert(metabolism_fits(ran, ctype));
        }
        let cur_tile = world.get_tile_mut(self.stats.pos_x, self.stats.pos_y);
        if self.stats.energy <= energy_loss {
            cur_tile.food += self.stats.energy;
            self.stats.energy = 0;
            cur_tile.creature = None;
            cmap.deallocate(self.stats.id);
            false
        } else {
            cur_tile.food += energy_loss;
            self.stats.energy -= energy_loss;
            true
        }
    }

    /// This creature's dietary class, as fixed at birth.
    pub fn get_type(&self) -> (ctype: CreatureType)
        ensures
            ctype == self@.ctype,
    {
        self.ctype
    }

    /// This creature's state.
    pub fn get_stats(&self) -> (stats: CreatureStats)
        ensures
            stats == self@.stats,
    {
        self.stats
    }

    /// Number of genes in this creature's program.
    pub fn get_num_genes(&self) -> (count: usize)
        ensures
            count == self@.genes.len(),
    {
        self.genes.len()
    }

    /// The gene at `index`, if the program is that long.
    pub fn get_gene(&self, index: usize) -> (gene: Option<Command>)
        ensures
            gene == (if index < self@.genes.len() {
                Some(self@.genes[index as int])
            } else {
                None
            }),
    {
        if index < self.genes.len() {
            Some(self.genes[index])
        } else {
            None
        }
    }
}

} // verus!
