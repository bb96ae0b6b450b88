use gene_game::creature::command::Command;
use gene_game::creature::CreatureType;
use gene_game::creaturemap::CreatureId;
use gene_game::creaturemap::CreatureMap;
use gene_game::game::Game;
use gene_game::world::World;

fn total_food(world: &World) -> u32 {
    let (w, h) = world.get_size();
    let mut food = 0;
    for y in 0..h {
        for x in 0..w {
            food += world.get_tile(x, y).food;
        }
    }
    food
}

fn total_energy(store: &CreatureMap) -> u32 {
    let mut energy = 0;
    for i in 0..store.get_num() {
        if let Some(id) = store.get_creatureid_by_index(i) {
            energy += store.get_creature(id).unwrap().get_stats().energy;
        }
    }
    energy
}

fn check_occupancy(game: &Game) {
    let world = game.get_world();
    let store = game.get_creatures();
    let (w, h) = world.get_size();
    let mut seen = Vec::new();
    for y in 0..h {
        for x in 0..w {
            if let Some(id) = world.get_tile(x, y).creature {
                let c = store.get_creature(id).unwrap();
                let s = c.get_stats();
                assert_eq!((s.pos_x, s.pos_y), (x, y));
                assert!(!seen.contains(&id));
                seen.push(id);
            }
        }
    }
    assert_eq!(seen.len(), game.active_creatures().len());
    assert_eq!(world.get_num_creatures() as usize, seen.len());
}

#[test]
fn tick_pays_upkeep_to_the_tile() {
    let mut world = World::new(3, 3);
    let mut store = CreatureMap::new();
    let id = store.add_creature(1, 1, vec![Command::Nop]);
    world.get_tile_mut(1, 1).creature = Some(id);
    let mut c = store.move_creature(id).unwrap();
    assert!(c.simulate(&mut world, &mut store));
    assert_eq!(c.get_stats().energy, 99);
    assert_eq!(world.get_tile(1, 1).food, 101);
    assert_eq!(world.get_tile(1, 1).creature, Some(id));
}

#[test]
fn upkeep_depends_on_the_dietary_class() {
    let mut world = World::new(3, 3);
    let mut store = CreatureMap::new();
    let id = store.add_creature(0, 0, vec![Command::Attack]);
    world.get_tile_mut(0, 0).creature = Some(id);
    let mut c = store.move_creature(id).unwrap();
    assert_eq!(c.get_type(), CreatureType::Carnivore);
    assert!(c.simulate(&mut world, &mut store));
    assert_eq!(c.get_stats().energy, 95);
    assert_eq!(world.get_tile(0, 0).food, 105);
}

#[test]
fn herbivore_starves_at_its_last_unit() {
    let mut world = World::new(3, 3);
    let mut store = CreatureMap::new();
    let id = store.add_creature(1, 1, vec![Command::Nop]);
    world.get_tile_mut(1, 1).creature = Some(id);
    let mut c = store.move_creature(id).unwrap();
    for _ in 0..99 {
        assert!(c.simulate(&mut world, &mut store));
    }
    assert_eq!(c.get_stats().energy, 1);
    assert_eq!(world.get_tile(1, 1).food, 199);
    assert!(!c.simulate(&mut world, &mut store));
    assert_eq!(c.get_stats().energy, 0);
    assert_eq!(world.get_tile(1, 1).food, 200);
    assert!(world.get_tile(1, 1).creature.is_none());
    assert!(store.get_creature(id).is_none());
    assert!(!c.simulate(&mut world, &mut store));
    assert_eq!(world.get_tile(1, 1).food, 200);
}

#[test]
fn starving_creature_left_in_the_store_is_deallocated() {
    let mut world = World::new(2, 2);
    let mut store = CreatureMap::new();
    let id = store.add_creature(0, 0, vec![Command::Attack, Command::Eat]);
    world.get_tile_mut(0, 0).creature = Some(id);
    let mut c = store.move_creature(id).unwrap();
    assert_eq!(c.get_type(), CreatureType::Omnivore);
    let shadow = store.add_creature(1, 1, vec![Command::Nop]);
    assert!(store.deallocate(shadow));
    assert!(world.get_tile(1, 1).creature.is_none());
    let mut alive = true;
    let mut ticks = 0;
    while alive && ticks < 1000 {
        alive = c.simulate(&mut world, &mut store);
        ticks += 1;
    }
    assert!(!alive);
    assert_eq!(c.get_stats().energy, 0);
}

#[test]
fn new_game_is_empty() {
    let game = Game::new(5, 4);
    assert_eq!(game.get_world().get_size(), (5, 4));
    assert_eq!(game.get_creatures().get_num(), 0);
    assert!(game.active_creatures().is_empty());
    assert!(game.can_simulate());
    assert!(game.has_room());
}

#[test]
fn round_without_creatures_reports_the_end() {
    let mut game = Game::new(3, 3);
    assert!(!game.simulate());
    assert_eq!(total_food(game.get_world()), 900);
}

#[test]
fn placing_takes_a_free_tile_on_the_grid() {
    let mut game = Game::new(3, 3);
    assert!(game.place_creature(1, 2));
    assert!(!game.place_creature(1, 2));
    assert!(!game.place_creature(3, 0));
    assert!(!game.place_creature(0, 3));
    assert!(game.place_creature(0, 0));
    let active = game.active_creatures();
    assert_eq!(active.len(), 2);
    assert_eq!(game.get_world().get_tile(1, 2).creature, Some(active[0]));
    assert_eq!(game.get_world().get_tile(0, 0).creature, Some(active[1]));
    let c = game.get_creatures().get_creature(active[0]).unwrap();
    assert_eq!(c.get_num_genes(), 2);
    assert_eq!(c.get_gene(0), Some(Command::Eat));
    assert_eq!(c.get_gene(1), Some(Command::Reproduce));
    assert_eq!(c.get_type(), CreatureType::Herbivore);
    check_occupancy(&game);
}

#[test]
fn rounds_keep_tiles_and_store_in_step() {
    let mut game = Game::new(8, 8);
    for i in 0..8 {
        assert!(game.place_creature(i, (i * 3) % 8));
    }
    check_occupancy(&game);
    let before = total_food(game.get_world()) + total_energy(game.get_creatures());
    assert_eq!(before, 6400 + 800);
    for _ in 0..300 {
        assert!(game.can_simulate());
        let any = game.simulate();
        check_occupancy(&game);
        assert_eq!(total_food(game.get_world()) + total_energy(game.get_creatures()), before);
        assert_eq!(any, !game.active_creatures().is_empty());
        if !any {
            break;
        }
    }
}

#[test]
fn first_round_feeds_every_seeded_creature() {
    let mut game = Game::new(5, 5);
    assert!(game.place_creature(2, 2));
    let id = game.active_creatures()[0];
    assert!(game.simulate());
    let c = game.get_creatures().get_creature(id).unwrap();
    assert_eq!(c.get_stats().energy, 109);
    assert_eq!(game.get_world().get_tile(2, 2).food, 101);
    assert_eq!(total_food(game.get_world()), 2500 - 10 + 1);
}

#[test]
fn dead_creatures_free_their_slots() {
    let mut game = Game::new(1, 1);
    assert!(game.place_creature(0, 0));
    let id = game.active_creatures()[0];
    let mut rounds = 0;
    while game.simulate() {
        rounds += 1;
        assert!(rounds <= 100);
        assert_eq!(game.active_creatures(), vec![id]);
    }
    assert_eq!(rounds, 99);
    assert!(game.active_creatures().is_empty());
    assert!(game.get_creatures().get_creature(id).is_none());
    assert!(game.get_world().get_tile(0, 0).creature.is_none());
    assert_eq!(game.get_world().get_tile(0, 0).food, 200);
    assert!(game.place_creature(0, 0));
    let again = game.active_creatures()[0];
    assert_eq!(again.get_index(), id.get_index());
    assert_ne!(again.get_stamp(), id.get_stamp());
    assert_eq!(game.get_creatures().get_num(), 1);
}

#[test]
fn carnivore_starves_at_its_upkeep() {
    let mut world = World::new(3, 3);
    let mut store = CreatureMap::new();
    let id = store.add_creature(2, 2, vec![Command::Nop, Command::Attack]);
    world.get_tile_mut(2, 2).creature = Some(id);
    let mut c = store.move_creature(id).unwrap();
    for _ in 0..19 {
        assert!(c.simulate(&mut world, &mut store));
    }
    assert_eq!(c.get_stats().energy, 5);
    assert_eq!(world.get_tile(2, 2).food, 195);
    assert!(!c.simulate(&mut world, &mut store));
    assert_eq!(c.get_stats().energy, 0);
    assert_eq!(world.get_tile(2, 2).food, 200);
    assert!(world.get_tile(2, 2).creature.is_none());
}

fn hand_driven_round(world: &mut World, store: &mut CreatureMap) -> usize {
    let mut ids: Vec<CreatureId> = Vec::new();
    for i in 0..store.get_num() {
        if let Some(id) = store.get_creatureid_by_index(i) {
            ids.push(id);
        }
    }
    for id in &ids {
        if let Some(mut c) = store.move_creature(*id) {
            let alive = c.simulate(world, store);
            let back = c.get_id();
            assert_eq!(back, *id);
            store.set_creature(back, c);
            if !alive {
                assert!(store.deallocate(back));
            }
        }
    }
    ids.len()
}

#[test]
fn hunters_keep_tiles_and_store_in_step() {
    let mut world = World::new(6, 6);
    let mut store = CreatureMap::new();
    let genes = vec![
        Command::LookForCreature,
        Command::Attack,
        Command::Move,
        Command::LookForFood,
        Command::Eat,
        Command::Invert,
        Command::Reproduce,
    ];
    for i in 0..12u32 {
        let (x, y) = (i % 6, (i / 6) * 3);
        let id = store.add_creature(x, y, genes.clone());
        world.get_tile_mut(x, y).creature = Some(id);
    }
    let before = total_food(&world) + total_energy(&store);
    assert_eq!(before, 3600 + 1200);
    let mut stamps = store.get_issued();
    for _ in 0..400 {
        let turns = hand_driven_round(&mut world, &mut store);
        assert_eq!(total_food(&world) + total_energy(&store), before);
        assert!(store.get_issued() >= stamps);
        stamps = store.get_issued();
        let mut seen: Vec<CreatureId> = Vec::new();
        for y in 0..6 {
            for x in 0..6 {
                if let Some(id) = world.get_tile(x, y).creature {
                    let s = store.get_creature(id).unwrap().get_stats();
                    assert_eq!((s.pos_x, s.pos_y), (x, y));
                    assert!(s.energy > 0);
                    assert!(!seen.contains(&id));
                    assert!(seen.iter().all(|other| other.get_stamp() != id.get_stamp()));
                    seen.push(id);
                }
            }
        }
        let mut stored = 0;
        for i in 0..store.get_num() {
            if store.get_creatureid_by_index(i).is_some() {
                stored += 1;
            }
        }
        assert_eq!(stored, seen.len());
        if turns == 0 {
            break;
        }
    }
}

#[test]
fn round_in_which_the_last_creature_dies_reports_the_end() {
    let mut game = Game::new(1, 1);
    assert!(game.place_creature(0, 0));
    for _ in 0..99 {
        assert!(game.simulate());
    }
    let id = game.active_creatures()[0];
    assert_eq!(game.get_creatures().get_creature(id).unwrap().get_stats().energy, 1);
    assert!(!game.simulate());
    assert!(game.active_creatures().is_empty());
    assert_eq!(game.get_world().get_num_creatures(), 0);
    assert_eq!(game.get_world().get_tile(0, 0).food, 200);
    assert!(!game.simulate());
    assert_eq!(game.get_world().get_tile(0, 0).food, 200);
}
