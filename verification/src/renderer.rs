//! What a frame shows: four bytes per tile, read off the world and the
//! store without changing either.

use crate::creature::command::food_reading;
use crate::creature::command::NUM_MAX_GENES;
use crate::creature::CreatureType;
use crate::creaturemap::CreatureMap;
use crate::creaturemap::CreatureMapModel;
use crate::occupancy::claimed;
use crate::occupancy::placed;
use crate::occupancy::settled;
use crate::world::lemma_index_in_range;
use crate::world::lemma_index_injective;
use crate::world::World;
use crate::world::WorldModel;
use vstd::prelude::*;

verus! {

/// What the colour of a creature stands for.
pub enum DisplayTypes {
    /// Its dietary class.
    FoodType,
    /// The length of its gene program.
    GeneComplexity,
}

/// The four bytes of one pixel, in the order in which they lie in a frame:
/// alpha, blue, green, red.
pub struct Pixel {
    pub alpha: u8,
    pub blue: u8,
    pub green: u8,
    pub red: u8,
}

/// Green of a creature with `count` genes: an equal share of the full range
/// for each gene, the range being cut into one part more than the longest
/// program has genes.
pub open spec fn gene_shade(count: nat) -> u8 {
    ((255int / (NUM_MAX_GENES as int + 1)) * count) as u8
}

/// The pixel of the tile at `(x, y)`. An empty tile is as blue as it has
/// food. A creature is red, green or both by its dietary class, or green by
/// the length of its program.
pub open spec fn shade(
    world: WorldModel,
    store: CreatureMapModel,
    x: u32,
    y: u32,
    disp: DisplayTypes,
) -> Pixel {
    let tile = world.tile(x, y);
    match tile.creature {
        None => Pixel { alpha: 255, blue: food_reading(tile.food), green: 0, red: 0 },
        Some(id) => {
            let c = store.resolve(id)->0;
            match disp {
                DisplayTypes::FoodType => match c.ctype {
                    CreatureType::Carnivore => Pixel { alpha: 255, blue: 0, green: 0, red: 255 },
                    CreatureType::Herbivore => Pixel { alpha: 255, blue: 0, green: 255, red: 0 },
                    CreatureType::Omnivore => Pixel { alpha: 255, blue: 0, green: 255, red: 255 },
                },
                DisplayTypes::GeneComplexity => Pixel {
                    alpha: 255,
                    blue: 0,
                    green: gene_shade(c.genes.len()),
                    red: 0,
                },
            }
        },
    }
}

/// The pixel that the four bytes of `frame` from `4 * index` on hold.
pub open spec fn pixel_at(frame: Seq<u8>, index: int) -> Pixel {
    Pixel {
        alpha: frame[4 * index],
        blue: frame[4 * index + 1],
        green: frame[4 * index + 2],
        red: frame[4 * index + 3],
    }
}

/// The pixel of the tile at `(x, y)`.
pub fn tile_pixel(world: &World, creatures: &CreatureMap, x: u32, y: u32, disp: &DisplayTypes) -> (pixel:
    Pixel)
    requires
        settled(world@, creatures@),
        world@.contains(x, y),
    ensures
        pixel == shade(world@, creatures@, x, y, *disp),
{
    let tile = world.get_tile(x, y);
    proof {
        assert(claimed(world@, creatures@, x, y));
    }
    match tile.creature {
        None => {
            let blue: u8 = if tile.food >= 255 {
                255
            } else {
                tile.food as u8
            };
            Pixel { alpha: 255, blue, green: 0, red: 0 }
        },
        Some(id) => {
            let c = creatures.get_creature(id).unwrap();
            proof {
                assert(placed(world@, creatures@, id.slot() as int));
                assert(c@ == creatures@.resolve(id)->0);
                assert(c@.wf());
            }
            match disp {
                DisplayTypes::FoodType => match c.get_type() {
                    CreatureType::Carnivore => Pixel { alpha: 255, blue: 0, green: 0, red: 255 },
                    CreatureType::Herbivore => Pixel { alpha: 255, blue: 0, green: 255, red: 0 },
                    CreatureType::Omnivore => Pixel { alpha: 255, blue: 0, green: 255, red: 255 },
                },
                DisplayTypes::GeneComplexity => {
                    let count = c.get_num_genes();
                    let share: usize = 255 / (NUM_MAX_GENES + 1);
                    assert(share == 15);
                    let green: u8 = (share * count) as u8;
                    Pixel { alpha: 255, blue: 0, green, red: 0 }
                },
            }
        },
    }
}

/// A frame of the world: the pixels of all tiles in row-major order, four
/// bytes each.
pub fn render(world: &World, creatures: &CreatureMap, disp: &DisplayTypes) -> (frame: Vec<u8>)
    requires
        settled(world@, creatures@),
    ensures
        frame@.len() == 4 * (world@.width * world@.height),
        forall|x: u32, y: u32|
            world@.contains(x, y) ==> pixel_at(frame@, world@.index_of(x, y)) == #[trigger] shade(
                world@,
                creatures@,
                x,
                y,
                *disp,
            ),
{
    let (width, height) = world.get_size();
    let mut frame: Vec<u8> = Vec::new();
    let mut y: u32 = 0;
    while y < height
        invariant
            y <= height,
            width == world@.width,
            height == world@.height,
            settled(world@, creatures@),
            frame@.len() == 4 * (y * width),
            forall|px: u32, py: u32|
                world@.contains(px, py) && world@.index_of(px, py) < y * width ==> pixel_at(
                    frame@,
                    world@.index_of(px, py),
                ) == #[trigger] shade(world@, creatures@, px, py, *disp),
        decreases height - y,
    {
        let mut x: u32 = 0;
        while x < width
            invariant
                x <= width,
                y < height,
                width == world@.width,
                height == world@.height,
                settled(world@, creatures@),
                frame@.len() == 4 * (y * width + x),
                forall|px: u32, py: u32|
                    world@.contains(px, py) && world@.index_of(px, py) < y * width + x
                        ==> pixel_at(frame@, world@.index_of(px, py)) == #[trigger] shade(
                        world@,
                        creatures@,
                        px,
                        py,
                        *disp,
                    ),
            decreases width - x,
        {
            let pixel = tile_pixel(world, creatures, x, y, disp);
            let ghost before = frame@;
            frame.push(pixel.alpha);
            frame.push(pixel.blue);
            frame.push(pixel.green);
            frame.push(pixel.red);
            proof {
                let here = y * width + x;
                assert forall|px: u32, py: u32|
                    world@.contains(px, py) && world@.index_of(px, py) < here + 1 implies pixel_at(
                    frame@,
                    world@.index_of(px, py),
                ) == #[trigger] shade(world@, creatures@, px, py, *disp) by {
                    let index = world@.index_of(px, py);
                    lemma_index_in_range(width, height, px, py);
                    if index < here {
                        assert(pixel_at(before, index) == shade(world@, creatures@, px, py, *disp));
                        assert(frame@[4 * index] == before[4 * index]);
                        assert(frame@[4 * index + 1] == before[4 * index + 1]);
                        assert(frame@[4 * index + 2] == before[4 * index + 2]);
                        assert(frame@[4 * index + 3] == before[4 * index + 3]);
                    } else {
                        lemma_index_injective(width, px, py, x, y);
                    }
                }
            }
            x = x + 1;
        }
        proof {
            assert((y + 1) * width == y * width + width) by (nonlinear_arith);
        }
        y = y + 1;
    }
    proof {
        assert forall|x: u32, y: u32| world@.contains(x, y) implies world@.index_of(x, y) < height
            * width by {
            lemma_index_in_range(width, height, x, y);
            assert(width * height == height * width) by (nonlinear_arith);
        }
        assert(width * height == height * width) by (nonlinear_arith);
    }
    frame
}

} // verus!
