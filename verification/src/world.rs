//! The toroidal grid: a row-major array of tiles, each with food and at most
//! one occupant.

use crate::creaturemap::CreatureId;
use vstd::prelude::*;

verus! {

/// Food that every tile of a fresh world holds.
pub const INITIAL_FOOD: u32 = 100;

/// One cell of the grid.
#[derive(Clone, Copy)]
pub struct Tile {
    pub food: u32,
    pub creature: Option<CreatureId>,
}

/// The grid. Coordinates are not wrapped here: callers normalise them first.
pub struct World {
    width: u32,
    height: u32,
    map: Vec<Tile>,
}

/// What a `World` is: its dimensions and its tiles in row-major order.
pub struct WorldModel {
    pub width: u32,
    pub height: u32,
    pub tiles: Seq<Tile>,
}

impl WorldModel {
    /// The tile array has exactly `width * height` entries, a number that
    /// fits the coordinates' type.
    pub open spec fn wf(self) -> bool {
        &&& self.tiles.len() == self.width * self.height
        &&& self.width * self.height <= u32::MAX
    }

    /// `(x, y)` lies on the grid.
    pub open spec fn contains(self, x: u32, y: u32) -> bool {
        x < self.width && y < self.height
    }

    /// Row-major index of `(x, y)`.
    pub open spec fn index_of(self, x: u32, y: u32) -> int {
        y * self.width + x
    }

    /// The tile at `(x, y)`.
    pub open spec fn tile(self, x: u32, y: u32) -> Tile {
        self.tiles[self.index_of(x, y)]
    }

    /// The same world with the tile at `(x, y)` replaced.
    pub open spec fn with_tile(self, x: u32, y: u32, t: Tile) -> WorldModel {
        WorldModel { tiles: self.tiles.update(self.index_of(x, y), t), ..self }
    }

    /// The same world with another occupant at `(x, y)`.
    pub open spec fn with_occupant(self, x: u32, y: u32, c: Option<CreatureId>) -> WorldModel {
        self.with_tile(x, y, Tile { creature: c, ..self.tile(x, y) })
    }

    /// The same world with another amount of food at `(x, y)`.
    pub open spec fn with_food(self, x: u32, y: u32, food: u32) -> WorldModel {
        self.with_tile(x, y, Tile { food, ..self.tile(x, y) })
    }
}

/// Number of occupied tiles among `tiles`.
pub open spec fn occupied_count(tiles: Seq<Tile>) -> nat
    decreases tiles.len(),
{
    if tiles.len() == 0 {
        0
    } else {
        occupied_count(tiles.drop_last()) + if tiles.last().creature is Some {
            1nat
        } else {
            0nat
        }
    }
}

/// Sum of the food on `tiles`.
pub open spec fn total_food(tiles: Seq<Tile>) -> nat
    decreases tiles.len(),
{
    if tiles.len() == 0 {
        0
    } else {
        total_food(tiles.drop_last()) + tiles.last().food as nat
    }
}

/// Replacing one tile changes the total food by the difference of the two.
pub proof fn lemma_total_food_update(tiles: Seq<Tile>, i: int, t: Tile)
    requires
        0 <= i < tiles.len(),
    ensures
        total_food(tiles.update(i, t)) == total_food(tiles) - tiles[i].food + t.food,
        tiles[i].food <= total_food(tiles),
    decreases tiles.len(),
{
    let updated = tiles.update(i, t);
    if i == tiles.len() - 1 {
        assert(updated.drop_last() =~= tiles.drop_last());
    } else {
        lemma_total_food_update(tiles.drop_last(), i, t);
        assert(updated.drop_last() =~= tiles.drop_last().update(i, t));
    }
}

/// On a grid of `width * height` tiles every coordinate on the grid has a
/// row-major index below the number of tiles.
pub proof fn lemma_index_in_range(width: u32, height: u32, x: u32, y: u32)
    requires
        x < width,
        y < height,
    ensures
        0 <= y * width + x < width * height,
{
    assert(y * width + x < width * height) by (nonlinear_arith)
        requires
            x < width,
            y < height,
    ;
}

/// Distinct coordinates on the grid have distinct row-major indices.
pub proof fn lemma_index_injective(width: u32, x1: u32, y1: u32, x2: u32, y2: u32)
    requires
        x1 < width,
        x2 < width,
        y1 * width + x1 == y2 * width + x2,
    ensures
        x1 == x2,
        y1 == y2,
{
    assert(y1 == y2) by (nonlinear_arith)
        requires
            x1 < width,
            x2 < width,
            0 <= x1,
            0 <= x2,
            y1 * width + x1 == y2 * width + x2,
    ;
}

impl World {
    /// The dimensions and tiles of this world.
    pub closed spec fn view(&self) -> WorldModel {
        WorldModel { width: self.width, height: self.height, tiles: self.map@ }
    }

    /// A world of `width * height` tiles, each with the initial food and no
    /// occupant.
    pub fn new(width: u32, height: u32) -> (world: World)
        requires
            width * height <= u32::MAX,
        ensures
            world@.wf(),
            world@.width == width,
            world@.height == height,
            forall|i: int|
                0 <= i < world@.tiles.len() ==> (#[trigger] world@.tiles[i]).food == INITIAL_FOOD
                    && world@.tiles[i].creature is None,
            total_food(world@.tiles) == INITIAL_FOOD * (width * height),
    {
        let count: u32 = width * height;
        let mut map: Vec<Tile> = Vec::new();
        let mut i: u32 = 0;
        assert(INITIAL_FOOD * 0 == 0);
        while i < count
            invariant
                i <= count,
                map@.len() == i,
                forall|k: int|
                    0 <= k < map@.len() ==> (#[trigger] map@[k]).food == INITIAL_FOOD
                        && map@[k].creature is None,
                total_food(map@) == INITIAL_FOOD * i,
            decreases count - i,
        {
            let ghost before = map@;
            map.push(Tile { food: INITIAL_FOOD, creature: None });
            proof {
                assert(map@.drop_last() =~= before);
                assert(INITIAL_FOOD * (i + 1) == INITIAL_FOOD * i + INITIAL_FOOD) by (nonlinear_arith);
            }
            i = i + 1;
        }
        World { width, height, map }
    }

    /// `(width, height)`.
    pub fn get_size(&self) -> (size: (u32, u32))
        ensures
            size.0 == self@.width,
            size.1 == self@.height,
    {
        (self.width, self.height)
    }

    /// The grid coordinates of the window point `(x, y)`, if it lies on the
    /// grid: one tile takes one pixel.
    pub fn tile_under(&self, x: i32, y: i32) -> (pos: Option<(u32, u32)>)
        ensures
            pos == (if 0 <= x < self@.width && 0 <= y < self@.height {
                Some((x as u32, y as u32))
            } else {
                None
            }),
    {
        if x < 0 || x as i64 >= self.width as i64 || y < 0 || y as i64 >= self.height as i64 {
            return None;
        }
        Some((x as u32, y as u32))
    }

    /// The tile at `(x, y)`.
    pub fn get_tile(&self, x: u32, y: u32) -> (tile: &Tile)
        requires
            self@.wf(),
            self@.contains(x, y),
        ensures
            *tile == self@.tile(x, y),
    {
        proof {
            lemma_index_in_range(self.width, self.height, x, y);
            assert(y * self.width <= y * self.width + x);
        }
        let idx: usize = ((y * self.width) + x) as usize;
        &self.map[idx]
    }

    /// The tile at `(x, y)`, for writing: the world afterwards differs from
    /// the world before in that tile alone.
    pub fn get_tile_mut(&mut self, x: u32, y: u32) -> (tile: &mut Tile)
        requires
            old(self)@.wf(),
            old(self)@.contains(x, y),
        ensures
            *tile == old(self)@.tile(x, y),
            final(self)@ == old(self)@.with_tile(x, y, *final(tile)),
            final(self)@.wf(),
    {
        proof {
            lemma_index_in_range(self.width, self.height, x, y);
            assert(y * self.width <= y * self.width + x);
        }
        let idx: usize = ((y * self.width) + x) as usize;
        &mut self.map[idx]
    }

    /// Number of occupied tiles.
    pub fn get_num_creatures(&self) -> (count: u32)
        requires
            self@.wf(),
        ensures
            count == occupied_count(self@.tiles),
    {
        let mut nc: u32 = 0;
        let mut i: usize = 0;
        while i < self.map.len()
            invariant
                i <= self.map@.len(),
                self.map@.len() <= u32::MAX,
                nc == occupied_count(self.map@.take(i as int)),
                nc <= i,
            decreases self.map@.len() - i,
        {
            proof {
                assert(self.map@.take(i + 1).drop_last() =~= self.map@.take(i as int));
            }
            if self.map[i].creature.is_some() {
                nc = nc + 1;
            }
            i = i + 1;
        }
        proof {
            assert(self.map@.take(i as int) =~= self.map@);
        }
        nc
    }
}

} // verus!
