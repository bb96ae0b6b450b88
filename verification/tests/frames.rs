use gene_game::creature::command::Command;
use gene_game::creaturemap::CreatureMap;
use gene_game::game::Game;
use gene_game::renderer::render;
use gene_game::renderer::tile_pixel;
use gene_game::renderer::DisplayTypes;
use gene_game::world::World;

#[test]
fn empty_tiles_are_as_blue_as_their_food() {
    let mut world = World::new(2, 2);
    let store = CreatureMap::new();
    world.get_tile_mut(1, 0).food = 7;
    world.get_tile_mut(0, 1).food = 300;
    world.get_tile_mut(1, 1).food = 255;
    let frame = render(&world, &store, &DisplayTypes::FoodType);
    assert_eq!(
        frame,
        vec![255, 100, 0, 0, 255, 7, 0, 0, 255, 255, 0, 0, 255, 255, 0, 0]
    );
    let frame = render(&world, &store, &DisplayTypes::GeneComplexity);
    assert_eq!(
        frame,
        vec![255, 100, 0, 0, 255, 7, 0, 0, 255, 255, 0, 0, 255, 255, 0, 0]
    );
}

#[test]
fn creatures_are_coloured_by_dietary_class() {
    let mut world = World::new(3, 1);
    let mut store = CreatureMap::new();
    let h = store.add_creature(0, 0, vec![Command::Eat]);
    let c = store.add_creature(1, 0, vec![Command::Attack]);
    let o = store.add_creature(2, 0, vec![Command::Eat, Command::Attack]);
    world.get_tile_mut(0, 0).creature = Some(h);
    world.get_tile_mut(1, 0).creature = Some(c);
    world.get_tile_mut(2, 0).creature = Some(o);
    let frame = render(&world, &store, &DisplayTypes::FoodType);
    assert_eq!(frame, vec![255, 0, 255, 0, 255, 0, 0, 255, 255, 0, 255, 255]);
    let p = tile_pixel(&world, &store, 1, 0, &DisplayTypes::FoodType);
    assert_eq!((p.alpha, p.blue, p.green, p.red), (255, 0, 0, 255));
}

#[test]
fn creatures_are_coloured_by_gene_count() {
    let mut world = World::new(3, 1);
    let mut store = CreatureMap::new();
    let a = store.add_creature(0, 0, vec![Command::Eat]);
    let b = store.add_creature(1, 0, vec![Command::Nop; 2]);
    let c = store.add_creature(2, 0, vec![Command::Nop; 16]);
    world.get_tile_mut(0, 0).creature = Some(a);
    world.get_tile_mut(1, 0).creature = Some(b);
    world.get_tile_mut(2, 0).creature = Some(c);
    let frame = render(&world, &store, &DisplayTypes::GeneComplexity);
    assert_eq!(frame, vec![255, 0, 15, 0, 255, 0, 30, 0, 255, 0, 240, 0]);
}

#[test]
fn game_frame_has_four_bytes_per_tile_in_row_major_order() {
    let mut game = Game::new(3, 2);
    assert!(game.place_creature(1, 1));
    let frame = game.render(&DisplayTypes::FoodType);
    assert_eq!(frame.len(), 24);
    for i in 0..6 {
        if i == 4 {
            assert_eq!(frame[4 * i..4 * i + 4], [255, 0, 255, 0]);
        } else {
            assert_eq!(frame[4 * i..4 * i + 4], [255, 100, 0, 0]);
        }
    }
    let frame = game.render(&DisplayTypes::GeneComplexity);
    assert_eq!(frame[16..20], [255, 0, 30, 0]);
}
