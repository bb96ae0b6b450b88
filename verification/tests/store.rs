use gene_game::creature::command::Command;
use gene_game::creature::CreatureType;
use gene_game::creaturemap::get_generation;
use gene_game::creaturemap::CreatureMap;

#[test]
fn new_store_is_empty() {
    let store = CreatureMap::new();
    assert_eq!(store.get_num(), 0);
    assert_eq!(store.get_issued(), 0);
    assert!(store.get_creatureid_by_index(0).is_none());
}

#[test]
fn generation_counter_counts_up() {
    let mut counter: u64 = 7;
    assert_eq!(get_generation(&mut counter), 7);
    assert_eq!(get_generation(&mut counter), 8);
    assert_eq!(counter, 9);
}

#[test]
fn allocate_appends_when_nothing_is_free() {
    let mut store = CreatureMap::new();
    let a = store.allocate();
    let b = store.allocate();
    assert_eq!(a.get_index(), 0);
    assert_eq!(b.get_index(), 1);
    assert_eq!(a.get_stamp(), 0);
    assert_eq!(b.get_stamp(), 1);
    assert_eq!(store.get_num(), 2);
    assert!(store.get_creature(a).is_none());
    assert!(store.get_creatureid_by_index(0).is_none());
}

#[test]
fn add_creature_stores_a_newborn() {
    let mut store = CreatureMap::new();
    let id = store.add_creature(3, 4, vec![Command::Eat, Command::Reproduce]);
    let c = store.get_creature(id).unwrap();
    assert_eq!(c.get_id(), id);
    assert_eq!(c.get_type(), CreatureType::Herbivore);
    assert_eq!(c.get_num_genes(), 2);
    assert_eq!(c.get_gene(0), Some(Command::Eat));
    assert_eq!(c.get_gene(1), Some(Command::Reproduce));
    assert_eq!(c.get_gene(2), None);
    let stats = c.get_stats();
    assert_eq!((stats.pos_x, stats.pos_y), (3, 4));
    assert_eq!(stats.energy, 100);
    assert_eq!((stats.e, stats.w, stats.n, stats.s), (128, 128, 128, 128));
    assert_eq!(store.get_creatureid_by_index(0), Some(id));
    assert_eq!(store.get_creatureid_by_index(1), None);
}

#[test]
fn stamps_are_unique_across_slot_reuse() {
    let mut store = CreatureMap::new();
    let a = store.add_creature(0, 0, vec![Command::Nop]);
    let b = store.add_creature(1, 0, vec![Command::Nop]);
    assert!(store.deallocate(a));
    let c = store.add_creature(2, 0, vec![Command::Nop]);
    assert_eq!(c.get_index(), a.get_index());
    assert_ne!(c.get_stamp(), a.get_stamp());
    assert_ne!(c.get_stamp(), b.get_stamp());
    assert_ne!(a.get_stamp(), b.get_stamp());
    assert_ne!(c, a);
    assert_eq!(store.get_num(), 2);
    assert!(store.get_creature(a).is_none());
    assert!(store.get_creature(c).is_some());
    assert!(!store.deallocate(a));
    assert!(store.get_creature(c).is_some());
}

#[test]
fn deallocated_handle_is_rejected() {
    let mut store = CreatureMap::new();
    let id = store.add_creature(0, 0, vec![Command::Attack]);
    assert!(store.get_creature(id).is_some());
    assert!(store.deallocate(id));
    assert!(store.get_creature(id).is_none());
    assert!(store.get_creature_mut(id).is_none());
    assert!(!store.deallocate(id));
    assert!(store.get_creatureid_by_index(0).is_none());
    assert_eq!(store.get_num(), 1);
}

#[test]
fn freed_slots_are_reused_last_freed_first() {
    let mut store = CreatureMap::new();
    let a = store.add_creature(0, 0, vec![Command::Nop]);
    let b = store.add_creature(1, 0, vec![Command::Nop]);
    let _c = store.add_creature(2, 0, vec![Command::Nop]);
    assert!(store.deallocate(a));
    assert!(store.deallocate(b));
    let d = store.allocate();
    let e = store.allocate();
    let f = store.allocate();
    assert_eq!(d.get_index(), b.get_index());
    assert_eq!(e.get_index(), a.get_index());
    assert_eq!(f.get_index(), 3);
    assert_eq!(store.get_issued(), 6);
}

#[test]
fn lookup_and_free_with_unknown_handle_do_nothing() {
    let mut big = CreatureMap::new();
    big.add_creature(0, 0, vec![Command::Nop]);
    let far = big.add_creature(1, 0, vec![Command::Nop]);
    let mut small = CreatureMap::new();
    let own = small.add_creature(5, 5, vec![Command::Nop]);
    assert!(small.get_creature(far).is_none());
    assert!(small.get_creature_mut(far).is_none());
    assert!(!small.deallocate(far));
    assert!(small.move_creature(far).is_none());
    assert_eq!(small.get_num(), 1);
    assert!(small.get_creature(own).is_some());
}

#[test]
fn set_creature_ignores_a_slot_that_does_not_exist() {
    let mut big = CreatureMap::new();
    big.add_creature(0, 0, vec![Command::Nop]);
    let far = big.add_creature(1, 0, vec![Command::Nop]);
    let taken = big.move_creature(far).unwrap();
    let mut small = CreatureMap::new();
    small.add_creature(5, 5, vec![Command::Nop]);
    small.set_creature(far, taken);
    assert_eq!(small.get_num(), 1);
    assert!(small.get_creature(far).is_none());
}

#[test]
fn move_creature_takes_out_and_set_creature_puts_back() {
    let mut store = CreatureMap::new();
    let id = store.add_creature(2, 3, vec![Command::Move]);
    let taken = store.move_creature(id).unwrap();
    assert_eq!(taken.get_id(), id);
    assert!(store.get_creature(id).is_none());
    assert!(!store.deallocate(id));
    let other = store.allocate();
    assert_eq!(other.get_index(), 1);
    store.set_creature(id, taken);
    assert_eq!(store.get_creature(id).unwrap().get_id(), id);
}

#[test]
fn dietary_class_follows_the_genes_at_birth() {
    let mut store = CreatureMap::new();
    let h = store.add_creature(0, 0, vec![Command::Eat, Command::Move]);
    let c = store.add_creature(0, 1, vec![Command::Attack, Command::Move]);
    let o = store.add_creature(0, 2, vec![Command::Attack, Command::Eat]);
    let n = store.add_creature(0, 3, vec![Command::Nop]);
    assert_eq!(store.get_creature(h).unwrap().get_type(), CreatureType::Herbivore);
    assert_eq!(store.get_creature(c).unwrap().get_type(), CreatureType::Carnivore);
    assert_eq!(store.get_creature(o).unwrap().get_type(), CreatureType::Omnivore);
    assert_eq!(store.get_creature(n).unwrap().get_type(), CreatureType::Herbivore);
    assert_eq!(CreatureType::Herbivore.upkeep(), 1);
    assert_eq!(CreatureType::Carnivore.upkeep(), 5);
    assert_eq!(CreatureType::Omnivore.upkeep(), 10);
    assert_eq!(CreatureType::Omnivore.name(), "Omnivore");
    assert_eq!(CreatureType::Carnivore.name(), "Carnivore");
    assert_eq!(CreatureType::Herbivore.name(), "Herbivore");
}

#[test]
fn stale_handle_stays_rejected_through_later_operations() {
    let mut store = CreatureMap::new();
    let a = store.add_creature(0, 0, vec![Command::Nop]);
    let b = store.add_creature(1, 0, vec![Command::Nop]);
    assert!(store.deallocate(a));
    let mut handles = Vec::new();
    for round in 0..20u32 {
        let c = store.add_creature(round, 1, vec![Command::Eat]);
        assert!(store.get_creature(a).is_none());
        assert!(!store.deallocate(a));
        let taken = store.move_creature(c).unwrap();
        assert!(store.get_creature(a).is_none());
        store.set_creature(c, taken);
        assert!(store.get_creature(a).is_none());
        if round % 2 == 0 {
            assert!(store.deallocate(c));
        } else {
            handles.push(c);
        }
        assert!(store.get_creature(a).is_none());
        assert!(store.get_creature_mut(a).is_none());
        assert!(store.move_creature(a).is_none());
    }
    assert!(store.get_creature(b).is_some());
    for h in handles {
        assert!(store.get_creature(h).is_some());
        assert_ne!(h.get_stamp(), a.get_stamp());
    }
}

#[test]
fn cloned_creature_is_the_same_creature() {
    let mut store = CreatureMap::new();
    let id = store.add_creature(4, 5, vec![Command::Eat, Command::Attack]);
    let copy = store.get_creature(id).unwrap().clone();
    assert_eq!(copy.get_id(), id);
    assert_eq!(copy.get_type(), CreatureType::Omnivore);
    assert_eq!(copy.get_num_genes(), 2);
    assert_eq!(copy.get_gene(1), Some(Command::Attack));
    assert_eq!(copy.get_stats().energy, 100);
}
