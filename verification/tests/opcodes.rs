use gene_game::creature::command::Command;
use gene_game::creature::command::Mutation;
use gene_game::creature::CreatureStats;
use gene_game::creaturemap::CreatureId;
use gene_game::creaturemap::CreatureMap;
use gene_game::world::World;

fn actor_at(store: &mut CreatureMap, world: &mut World, x: u32, y: u32) -> CreatureStats {
    let id = store.add_creature(x, y, vec![Command::Nop]);
    world.get_tile_mut(x, y).creature = Some(id);
    store.move_creature(id).unwrap().get_stats()
}

fn resident_at(store: &mut CreatureMap, world: &mut World, x: u32, y: u32) -> CreatureId {
    let id = store.add_creature(x, y, vec![Command::Nop]);
    world.get_tile_mut(x, y).creature = Some(id);
    id
}

#[test]
fn selector_with_all_registers_zero() {
    let mut world = World::new(3, 3);
    let mut store = CreatureMap::new();
    let mut stats = actor_at(&mut store, &mut world, 1, 1);
    stats.e = 0;
    stats.w = 0;
    stats.n = 0;
    stats.s = 0;
    assert_eq!(stats.direction_for(0), (1, 0));
    assert_eq!(stats.direction_for(1), (-1, 0));
    assert_eq!(stats.direction_for(2), (0, -1));
    assert_eq!(stats.direction_for(3), (0, 1));
    assert_eq!(stats.direction_for(4), (0, 1));
}

#[test]
fn selector_buckets_follow_the_weights() {
    let mut world = World::new(3, 3);
    let mut store = CreatureMap::new();
    let mut stats = actor_at(&mut store, &mut world, 1, 1);
    stats.e = 9;
    stats.w = 4;
    stats.n = 0;
    stats.s = 255;
    assert_eq!(stats.direction_for(0), (1, 0));
    assert_eq!(stats.direction_for(9), (1, 0));
    assert_eq!(stats.direction_for(10), (-1, 0));
    assert_eq!(stats.direction_for(14), (-1, 0));
    assert_eq!(stats.direction_for(15), (0, -1));
    assert_eq!(stats.direction_for(16), (0, 1));
    assert_eq!(stats.direction_for(271), (0, 1));
    assert_eq!(stats.direction_for(272), (0, 1));
}

#[test]
fn drawn_direction_is_a_single_step() {
    let mut world = World::new(3, 3);
    let mut store = CreatureMap::new();
    let stats = actor_at(&mut store, &mut world, 1, 1);
    for _ in 0..200 {
        let dir = stats.get_proba_dir();
        assert!(dir == (1, 0) || dir == (-1, 0) || dir == (0, -1) || dir == (0, 1));
    }
}

#[test]
fn drawn_mutation_stays_in_range() {
    for len in 1..=16usize {
        for _ in 0..200 {
            let m = Command::draw_mutation(len);
            assert!(m.roll < 100);
            assert!(m.append_roll < 100);
            assert!(m.index < len);
        }
    }
}

#[test]
fn invert_reflects_every_register() {
    let mut world = World::new(3, 3);
    let mut store = CreatureMap::new();
    let mut stats = actor_at(&mut store, &mut world, 1, 1);
    stats.e = 0;
    stats.w = 255;
    stats.n = 128;
    stats.s = 1;
    Command::c_invert(&mut stats);
    assert_eq!((stats.e, stats.w, stats.n, stats.s), (255, 0, 127, 254));
    Command::c_invert(&mut stats);
    assert_eq!((stats.e, stats.w, stats.n, stats.s), (0, 255, 128, 1));
}

#[test]
fn look_for_food_reads_neighbours_and_saturates() {
    let mut world = World::new(3, 3);
    let mut store = CreatureMap::new();
    let mut stats = actor_at(&mut store, &mut world, 0, 0);
    world.get_tile_mut(1, 0).food = 7;
    world.get_tile_mut(2, 0).food = 300;
    world.get_tile_mut(0, 2).food = 255;
    world.get_tile_mut(0, 1).food = 254;
    Command::c_lookfood(&world, &mut stats);
    assert_eq!(stats.e, 7);
    assert_eq!(stats.w, 255);
    assert_eq!(stats.n, 255);
    assert_eq!(stats.s, 254);
    assert_eq!(stats.energy, 100);
}

#[test]
fn look_for_creature_reads_occupancy() {
    let mut world = World::new(3, 3);
    let mut store = CreatureMap::new();
    let mut stats = actor_at(&mut store, &mut world, 1, 1);
    resident_at(&mut store, &mut world, 2, 1);
    resident_at(&mut store, &mut world, 1, 2);
    Command::c_lookcreatures(&world, &mut stats);
    assert_eq!((stats.e, stats.w, stats.n, stats.s), (255, 0, 0, 255));
}

#[test]
fn move_goes_to_a_free_tile() {
    let mut world = World::new(3, 3);
    let mut store = CreatureMap::new();
    let mut stats = actor_at(&mut store, &mut world, 2, 1);
    Command::move_toward(&mut world, &mut stats, (1, 0));
    assert_eq!((stats.pos_x, stats.pos_y), (0, 1));
    assert!(world.get_tile(2, 1).creature.is_none());
    assert_eq!(world.get_tile(0, 1).creature, Some(stats.id));
    assert_eq!(world.get_num_creatures(), 1);
}

#[test]
fn move_is_blocked_by_an_occupant() {
    let mut world = World::new(3, 3);
    let mut store = CreatureMap::new();
    let mut stats = actor_at(&mut store, &mut world, 1, 1);
    let other = resident_at(&mut store, &mut world, 1, 0);
    Command::move_toward(&mut world, &mut stats, (0, -1));
    assert_eq!((stats.pos_x, stats.pos_y), (1, 1));
    assert_eq!(world.get_tile(1, 1).creature, Some(stats.id));
    assert_eq!(world.get_tile(1, 0).creature, Some(other));
}

#[test]
fn random_move_keeps_one_occupied_tile() {
    let mut world = World::new(4, 4);
    let mut store = CreatureMap::new();
    let mut stats = actor_at(&mut store, &mut world, 1, 1);
    for _ in 0..50 {
        let before = (stats.pos_x, stats.pos_y);
        Command::c_move(&mut world, &mut stats);
        assert_ne!((stats.pos_x, stats.pos_y), before);
        assert_eq!(world.get_tile(stats.pos_x, stats.pos_y).creature, Some(stats.id));
        assert!(world.get_tile(before.0, before.1).creature.is_none());
        assert_eq!(world.get_num_creatures(), 1);
    }
}

#[test]
fn eat_takes_the_quota() {
    let mut world = World::new(3, 3);
    let mut store = CreatureMap::new();
    let mut stats = actor_at(&mut store, &mut world, 1, 1);
    Command::eat_toward(&mut world, &mut stats, (1, 0));
    assert_eq!(stats.energy, 110);
    assert_eq!(world.get_tile(2, 1).food, 90);
    assert_eq!(world.get_tile(1, 1).food, 100);
}

#[test]
fn eat_takes_what_is_left() {
    let mut world = World::new(3, 3);
    let mut store = CreatureMap::new();
    let mut stats = actor_at(&mut store, &mut world, 1, 1);
    world.get_tile_mut(1, 2).food = 3;
    Command::eat_toward(&mut world, &mut stats, (0, 1));
    assert_eq!(stats.energy, 103);
    assert_eq!(world.get_tile(1, 2).food, 0);
    Command::eat_toward(&mut world, &mut stats, (0, 1));
    assert_eq!(stats.energy, 103);
    assert_eq!(world.get_tile(1, 2).food, 0);
}

#[test]
fn eat_takes_exactly_ten_of_ten() {
    let mut world = World::new(3, 3);
    let mut store = CreatureMap::new();
    let mut stats = actor_at(&mut store, &mut world, 1, 1);
    world.get_tile_mut(0, 1).food = 10;
    Command::eat_toward(&mut world, &mut stats, (-1, 0));
    assert_eq!(stats.energy, 110);
    assert_eq!(world.get_tile(0, 1).food, 0);
}

#[test]
fn eat_does_nothing_on_an_occupied_tile() {
    let mut world = World::new(3, 3);
    let mut store = CreatureMap::new();
    let mut stats = actor_at(&mut store, &mut world, 1, 1);
    resident_at(&mut store, &mut world, 1, 0);
    Command::eat_toward(&mut world, &mut stats, (0, -1));
    assert_eq!(stats.energy, 100);
    assert_eq!(world.get_tile(1, 0).food, 100);
}

#[test]
fn random_eat_conserves_food_and_energy() {
    let mut world = World::new(3, 3);
    let mut store = CreatureMap::new();
    let mut stats = actor_at(&mut store, &mut world, 1, 1);
    Command::c_eat(&mut world, &mut stats);
    assert_eq!(stats.energy, 110);
    let mut food = 0;
    for y in 0..3 {
        for x in 0..3 {
            food += world.get_tile(x, y).food;
        }
    }
    assert_eq!(food, 890);
}

#[test]
fn attack_wounds_a_strong_victim() {
    let mut world = World::new(3, 3);
    let mut store = CreatureMap::new();
    let mut stats = actor_at(&mut store, &mut world, 1, 1);
    let victim = resident_at(&mut store, &mut world, 2, 1);
    Command::attack_toward(&mut world, &mut stats, &mut store, (1, 0));
    assert_eq!(stats.energy, 120);
    assert_eq!(store.get_creature(victim).unwrap().get_stats().energy, 80);
    assert_eq!(world.get_tile(2, 1).creature, Some(victim));
}

#[test]
fn attack_kills_a_victim_at_the_damage_amount() {
    let mut world = World::new(3, 3);
    let mut store = CreatureMap::new();
    let mut stats = actor_at(&mut store, &mut world, 1, 1);
    let victim = resident_at(&mut store, &mut world, 2, 1);
    for _ in 0..4 {
        Command::attack_toward(&mut world, &mut stats, &mut store, (1, 0));
    }
    assert_eq!(stats.energy, 180);
    assert_eq!(store.get_creature(victim).unwrap().get_stats().energy, 20);
    Command::attack_toward(&mut world, &mut stats, &mut store, (1, 0));
    assert_eq!(stats.energy, 200);
    assert!(store.get_creature(victim).is_none());
    assert!(world.get_tile(2, 1).creature.is_none());
    assert!(!store.deallocate(victim));
    Command::attack_toward(&mut world, &mut stats, &mut store, (1, 0));
    assert_eq!(stats.energy, 200);
}

#[test]
fn attack_on_an_empty_tile_does_nothing() {
    let mut world = World::new(3, 3);
    let mut store = CreatureMap::new();
    let mut stats = actor_at(&mut store, &mut world, 1, 1);
    Command::attack_toward(&mut world, &mut stats, &mut store, (0, 1));
    assert_eq!(stats.energy, 100);
    Command::c_attack(&mut world, &mut stats, &mut store);
    assert_eq!(stats.energy, 100);
    assert_eq!(world.get_num_creatures(), 1);
}

#[test]
fn attack_on_a_handle_that_does_not_resolve_does_nothing() {
    let mut world = World::new(1, 1);
    let mut store = CreatureMap::new();
    let mut stats = actor_at(&mut store, &mut world, 0, 0);
    Command::attack_toward(&mut world, &mut stats, &mut store, (1, 0));
    assert_eq!(stats.energy, 100);
    assert_eq!(world.get_tile(0, 0).creature, Some(stats.id));
}

#[test]
fn mutation_that_does_not_strike_copies_the_genes() {
    let genes = vec![Command::Eat, Command::Move, Command::Invert];
    let m = Mutation { roll: 10, opcode: Command::Attack, append_roll: 0, index: 1 };
    assert_eq!(Command::mutate_genes(&genes, m), genes);
    let m = Mutation { roll: 99, opcode: Command::Attack, append_roll: 0, index: 1 };
    assert_eq!(Command::mutate_genes(&genes, m), genes);
}

#[test]
fn mutation_overwrites_one_gene() {
    let genes = vec![Command::Eat, Command::Move, Command::Invert];
    let m = Mutation { roll: 9, opcode: Command::Attack, append_roll: 1, index: 1 };
    assert_eq!(
        Command::mutate_genes(&genes, m),
        vec![Command::Eat, Command::Attack, Command::Invert]
    );
    let m = Mutation { roll: 0, opcode: Command::Nop, append_roll: 99, index: 2 };
    assert_eq!(
        Command::mutate_genes(&genes, m),
        vec![Command::Eat, Command::Move, Command::Nop]
    );
}

#[test]
fn mutation_appends_a_gene() {
    let genes = vec![Command::Eat, Command::Move];
    let m = Mutation { roll: 5, opcode: Command::Reproduce, append_roll: 0, index: 0 };
    assert_eq!(
        Command::mutate_genes(&genes, m),
        vec![Command::Eat, Command::Move, Command::Reproduce]
    );
}

#[test]
fn mutation_of_a_full_program_never_appends() {
    let genes = vec![Command::Eat; 16];
    for roll in 0..100u32 {
        for append_roll in 0..100u32 {
            let m = Mutation { roll, opcode: Command::Attack, append_roll, index: 15 };
            let child = Command::mutate_genes(&genes, m);
            assert_eq!(child.len(), 16);
            if roll < 10 {
                assert_eq!(child[15], Command::Attack);
                assert_eq!(child[..15], genes[..15]);
            } else {
                assert_eq!(child, genes);
            }
        }
    }
}

#[test]
fn opcode_numbers_follow_declaration_order() {
    assert_eq!(Command::from_u32(0), Some(Command::Nop));
    assert_eq!(Command::from_u32(1), Some(Command::LookForFood));
    assert_eq!(Command::from_u32(2), Some(Command::LookForCreature));
    assert_eq!(Command::from_u32(3), Some(Command::Move));
    assert_eq!(Command::from_u32(4), Some(Command::Eat));
    assert_eq!(Command::from_u32(5), Some(Command::Attack));
    assert_eq!(Command::from_u32(6), Some(Command::Reproduce));
    assert_eq!(Command::from_u32(7), Some(Command::Invert));
    assert_eq!(Command::from_u32(8), None);
    assert_eq!(Command::Reproduce.name(), "Reproduce");
    assert_eq!(Command::LookForCreature.name(), "LookForCreature");
}

#[test]
fn reproduce_below_the_threshold_does_nothing() {
    let mut world = World::new(3, 3);
    let mut store = CreatureMap::new();
    let mut stats = actor_at(&mut store, &mut world, 1, 1);
    stats.energy = 199;
    Command::reproduce_toward(&mut world, &mut stats, &mut store, (1, 0), vec![Command::Eat]);
    assert_eq!(stats.energy, 199);
    assert_eq!(world.get_num_creatures(), 1);
    assert_eq!(store.get_num(), 1);
    Command::c_reproduce(&mut world, &mut stats, &vec![Command::Eat], &mut store);
    assert_eq!(stats.energy, 199);
    assert_eq!(store.get_num(), 1);
}

#[test]
fn reproduce_at_the_threshold_places_an_offspring() {
    let mut world = World::new(3, 3);
    let mut store = CreatureMap::new();
    let mut stats = actor_at(&mut store, &mut world, 1, 1);
    stats.energy = 200;
    let genes = vec![Command::Attack, Command::Eat];
    Command::reproduce_toward(&mut world, &mut stats, &mut store, (0, -1), genes.clone());
    assert_eq!(stats.energy, 100);
    let child = world.get_tile(1, 0).creature.unwrap();
    assert_ne!(child, stats.id);
    let c = store.get_creature(child).unwrap();
    let s = c.get_stats();
    assert_eq!((s.pos_x, s.pos_y), (1, 0));
    assert_eq!(s.energy, 100);
    assert_eq!(c.get_num_genes(), 2);
    assert_eq!(c.get_gene(0), Some(Command::Attack));
    assert_eq!(c.get_gene(1), Some(Command::Eat));
    assert_eq!(world.get_num_creatures(), 2);
}

#[test]
fn reproduce_is_blocked_by_an_occupant() {
    let mut world = World::new(3, 3);
    let mut store = CreatureMap::new();
    let mut stats = actor_at(&mut store, &mut world, 1, 1);
    let other = resident_at(&mut store, &mut world, 0, 1);
    stats.energy = 250;
    Command::reproduce_toward(&mut world, &mut stats, &mut store, (-1, 0), vec![Command::Eat]);
    assert_eq!(stats.energy, 250);
    assert_eq!(world.get_tile(0, 1).creature, Some(other));
    assert_eq!(store.get_num(), 2);
}

#[test]
fn reproduce_with_a_full_program_keeps_its_length() {
    for _ in 0..300 {
        let mut world = World::new(3, 3);
        let mut store = CreatureMap::new();
        let mut stats = actor_at(&mut store, &mut world, 1, 1);
        stats.energy = 250;
        let genes = vec![Command::Reproduce; 16];
        Command::c_reproduce(&mut world, &mut stats, &genes, &mut store);
        assert_eq!(stats.energy, 150);
        assert_eq!(world.get_num_creatures(), 2);
        let child = store.get_creatureid_by_index(1).unwrap();
        let c = store.get_creature(child).unwrap();
        assert_eq!(c.get_num_genes(), 16);
        let s = c.get_stats();
        assert_eq!(world.get_tile(s.pos_x, s.pos_y).creature, Some(child));
        let mut changed = 0;
        for i in 0..16 {
            if c.get_gene(i) != Some(Command::Reproduce) {
                changed += 1;
            }
        }
        assert!(changed <= 1);
    }
}

#[test]
fn execute_dispatches_on_the_opcode() {
    let mut world = World::new(3, 3);
    let mut store = CreatureMap::new();
    let mut stats = actor_at(&mut store, &mut world, 1, 1);
    let genes = vec![Command::Nop];
    Command::Nop.execute(&mut world, &mut stats, &genes, &mut store);
    assert_eq!(stats.energy, 100);
    assert_eq!((stats.e, stats.w, stats.n, stats.s), (128, 128, 128, 128));
    Command::Invert.execute(&mut world, &mut stats, &genes, &mut store);
    assert_eq!((stats.e, stats.w, stats.n, stats.s), (127, 127, 127, 127));
    Command::LookForFood.execute(&mut world, &mut stats, &genes, &mut store);
    assert_eq!((stats.e, stats.w, stats.n, stats.s), (100, 100, 100, 100));
    Command::LookForCreature.execute(&mut world, &mut stats, &genes, &mut store);
    assert_eq!((stats.e, stats.w, stats.n, stats.s), (0, 0, 0, 0));
    Command::Eat.execute(&mut world, &mut stats, &genes, &mut store);
    assert_eq!(stats.energy, 110);
    Command::Attack.execute(&mut world, &mut stats, &genes, &mut store);
    assert_eq!(stats.energy, 110);
    Command::Reproduce.execute(&mut world, &mut stats, &genes, &mut store);
    assert_eq!(stats.energy, 110);
    Command::Move.execute(&mut world, &mut stats, &genes, &mut store);
    assert_ne!((stats.pos_x, stats.pos_y), (1, 1));
    assert_eq!(world.get_tile(stats.pos_x, stats.pos_y).creature, Some(stats.id));
}

#[test]
fn eat_may_fill_the_energy_to_the_brim() {
    let mut world = World::new(3, 3);
    let mut store = CreatureMap::new();
    let mut stats = actor_at(&mut store, &mut world, 1, 1);
    stats.energy = u32::MAX - 10;
    Command::eat_toward(&mut world, &mut stats, (1, 0));
    assert_eq!(stats.energy, u32::MAX);
    assert_eq!(world.get_tile(2, 1).food, 90);
    world.get_tile_mut(1, 0).food = 0;
    Command::eat_toward(&mut world, &mut stats, (0, -1));
    assert_eq!(stats.energy, u32::MAX);
    assert_eq!(world.get_tile(1, 0).food, 0);
}

#[test]
fn attack_just_above_the_damage_amount_leaves_one_unit() {
    let mut world = World::new(3, 3);
    let mut store = CreatureMap::new();
    let mut stats = actor_at(&mut store, &mut world, 1, 1);
    let victim = resident_at(&mut store, &mut world, 1, 2);
    let mut v = store.move_creature(victim).unwrap();
    for _ in 0..79 {
        assert!(v.simulate(&mut world, &mut store));
    }
    assert_eq!(v.get_stats().energy, 21);
    store.set_creature(victim, v);
    stats.energy = u32::MAX - 21;
    Command::attack_toward(&mut world, &mut stats, &mut store, (0, 1));
    assert_eq!(stats.energy, u32::MAX - 1);
    let left = store.get_creature(victim).unwrap().get_stats();
    assert_eq!(left.energy, 1);
    assert_eq!((left.pos_x, left.pos_y), (1, 2));
    assert_eq!(world.get_tile(1, 2).creature, Some(victim));
    Command::attack_toward(&mut world, &mut stats, &mut store, (0, 1));
    assert_eq!(stats.energy, u32::MAX);
    assert!(store.get_creature(victim).is_none());
    assert!(world.get_tile(1, 2).creature.is_none());
    assert_eq!(world.get_num_creatures(), 1);
}
