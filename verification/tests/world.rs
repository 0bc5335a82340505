use bugs::bug::{Bug, Pos};
use bugs::constants::{WORLD_X, WORLD_Y};
use bugs::world::{cell_of, key_of, World};

#[test]
fn test_world_creation() {
    let world = World::new();
    assert_eq!(world.bug_count(), 0);
    assert_eq!(world.current_tick, 0);
}

#[test]
fn test_add_remove_bug() {
    let mut world = World::new();
    let bug = Bug::new(0, Pos::new(10, 10), 0);
    let id = world.add_bug(bug);

    assert_eq!(world.bug_count(), 1);
    assert!(world.get_bug(id).is_some());

    world.remove_bug(id);
    assert_eq!(world.bug_count(), 0);
}

#[test]
fn test_move_bug() {
    let mut world = World::new();
    let bug = Bug::new(0, Pos::new(10, 10), 0);
    let id = world.add_bug(bug);

    assert!(world.move_bug(id, Pos::new(11, 10)));
    assert_eq!(world.get_bug(id).unwrap().current_state.pos, Pos::new(11, 10));
}

#[test]
fn new_world_is_whole_and_bare() {
    let world = World::new();
    assert_eq!(world.cells.len(), WORLD_X);
    assert_eq!(world.cells[0].len(), WORLD_Y);
    assert_eq!(world.cells[WORLD_X - 1].len(), WORLD_Y);
    assert_eq!(world.next_bug_id, 1);
    let cell = world.get_cell(Pos::new(5, 5)).unwrap();
    assert_eq!((cell.food, cell.water, cell.terrain_height, cell.nearest), (0, 0, 0, -1));
    assert_eq!(world.total_food(), 0);
    assert_eq!(world.total_bug_mass(), 0);
}

#[test]
fn add_gives_out_identifiers_in_order_and_files_the_bug() {
    let mut world = World::new();
    let a = world.add_bug(Bug::new(77, Pos::new(10, 10), 0));
    let b = world.add_bug(Bug::new(77, Pos::new(11, 10), 0));
    assert_eq!((a, b), (1, 2));
    assert_eq!(world.next_bug_id, 3);
    assert_eq!(world.get_bug(a).unwrap().id, 1);
    assert_eq!(world.get_bug_at(Pos::new(10, 10)).unwrap().id, 1);
    assert_eq!(world.get_bug_at(Pos::new(11, 10)).unwrap().id, 2);
    assert!(world.get_bug_at(Pos::new(12, 10)).is_none());
    assert_eq!(world.bug_positions.len(), 2);
    assert_eq!(world.bug_positions.get(&key_of(Pos::new(10, 10))), Some(&1));
    assert_eq!(world.bug_ids(), vec![1, 2]);
}

#[test]
fn add_wraps_the_position() {
    let mut world = World::new();
    let id = world.add_bug(Bug::new(0, Pos::new(-1, WORLD_Y as i32), 0));
    assert_eq!(world.get_bug(id).unwrap().current_state.pos, Pos::new(WORLD_X as i32 - 1, 0));
    assert_eq!(world.get_bug_at(Pos::new(-5, 5000)).unwrap().id, id);
}

#[test]
fn remove_clears_registry_and_index() {
    let mut world = World::new();
    let id = world.add_bug(Bug::new(0, Pos::new(10, 10), 0));
    let gone = world.remove_bug(id).unwrap();
    assert_eq!(gone.id, id);
    assert!(world.get_bug(id).is_none());
    assert!(world.get_bug_at(Pos::new(10, 10)).is_none());
    assert_eq!(world.bug_positions.len(), 0);
    assert!(world.remove_bug(id).is_none());
    // The identifier is not given out again.
    assert_eq!(world.add_bug(Bug::new(0, Pos::new(10, 10), 0)), 2);
}

#[test]
fn move_to_an_occupied_cell_changes_nothing() {
    let mut world = World::new();
    let a = world.add_bug(Bug::new(0, Pos::new(10, 10), 0));
    let b = world.add_bug(Bug::new(0, Pos::new(11, 10), 0));
    assert!(!world.move_bug(a, Pos::new(11, 10)));
    assert!(!world.move_bug(a, Pos::new(10, 10)));
    assert_eq!(world.get_bug(a).unwrap().current_state.pos, Pos::new(10, 10));
    assert_eq!(world.get_bug(b).unwrap().current_state.pos, Pos::new(11, 10));
    assert_eq!(world.get_bug_at(Pos::new(10, 10)).unwrap().id, a);
    assert_eq!(world.bug_positions.len(), 2);
}

#[test]
fn move_of_a_missing_bug_fails() {
    let mut world = World::new();
    assert!(!world.move_bug(5, Pos::new(11, 10)));
    assert_eq!(world.bug_count(), 0);
    assert_eq!(world.bug_positions.len(), 0);
}

#[test]
fn move_relocates_the_index_entry_and_wraps() {
    let mut world = World::new();
    let id = world.add_bug(Bug::new(0, Pos::new(0, 10), 0));
    assert!(world.move_bug(id, Pos::new(-1, 10)));
    assert_eq!(world.get_bug(id).unwrap().current_state.pos, Pos::new(WORLD_X as i32 - 1, 10));
    assert!(world.get_bug_at(Pos::new(0, 10)).is_none());
    assert_eq!(world.get_bug_at(Pos::new(WORLD_X as i32 - 1, 10)).unwrap().id, id);
    assert_eq!(world.bug_positions.len(), 1);
}

#[test]
fn cells_are_read_and_written_through_wrapped_positions() {
    let mut world = World::new();
    world.get_cell_mut(Pos::new(-1, 3)).unwrap().food = 55;
    assert_eq!(world.get_cell(Pos::new(WORLD_X as i32 - 1, 3)).unwrap().food, 55);
    assert_eq!(world.cells[WORLD_X - 1][3].food, 55);
    world.get_cell_mut(Pos::new(2, 3)).unwrap().food = 45;
    assert_eq!(world.total_food(), 100);
}

#[test]
fn bugs_are_written_through_their_accessors() {
    let mut world = World::new();
    let id = world.add_bug(Bug::new(0, Pos::new(10, 10), 0));
    world.get_bug_mut(id).unwrap().current_state.weight = 5;
    assert_eq!(world.get_bug(id).unwrap().current_state.weight, 5);
    world.get_bug_at_mut(Pos::new(10, 10)).unwrap().current_state.weight = 6;
    assert_eq!(world.get_bug(id).unwrap().current_state.weight, 6);
    assert!(world.get_bug_mut(id + 1).is_none());
    assert!(world.get_bug_at_mut(Pos::new(11, 10)).is_none());
}

#[test]
fn stats_of_an_empty_world_are_zero() {
    let mut world = World::new();
    world.current_tick = 9;
    world.get_cell_mut(Pos::new(2, 3)).unwrap().food = 45;
    let stats = world.stats();
    assert_eq!(stats.tick, 0);
    assert_eq!(stats.bug_count, 0);
    assert_eq!(stats.total_food, 0);
}

#[test]
fn stats_hold_totals_and_means() {
    let mut world = World::new();
    world.current_tick = 9;
    for x in 0..WORLD_X {
        for y in 0..WORLD_Y {
            world.cells[x][y].food = 3;
        }
    }
    let a = world.add_bug(Bug::new(0, Pos::new(10, 10), 0));
    let b = world.add_bug(Bug::new(0, Pos::new(11, 10), 0));
    let c = world.add_bug(Bug::new(0, Pos::new(12, 10), 0));
    world.get_bug_mut(a).unwrap().current_state.weight = 100;
    world.get_bug_mut(b).unwrap().current_state.weight = 200;
    world.get_bug_mut(c).unwrap().current_state.weight = 401;
    world.get_bug_mut(a).unwrap().brain.n_genes = 4;
    world.get_bug_mut(b).unwrap().brain.n_genes = 1;
    let stats = world.stats();
    assert_eq!(stats.tick, 9);
    assert_eq!(stats.bug_count, 3);
    assert_eq!(stats.total_food, 3 * 1760 * 1000);
    assert_eq!(stats.total_bug_mass, 701);
    assert_eq!(world.total_bug_mass(), 701);
    assert_eq!(stats.avg_bug_mass, 233);
    assert_eq!(stats.avg_genes, 5 * 1024 / 3);
    assert_eq!(stats.avg_genes as f64 / 1024.0, 1706.0 / 1024.0);
    assert_eq!(stats.avg_food_per_cell, 3);
    assert_eq!(
        (stats.births, stats.starvations, stats.collisions, stats.drownings, stats.movements),
        (0, 0, 0, 0, 0)
    );
}

#[test]
fn terrain_floods_low_ground() {
    let mut world = World::new();
    world.set_terrain(Pos::new(1, 1), -100);
    assert_eq!(world.cells[1][1].terrain_height, -100);
    assert_eq!(world.cells[1][1].water, 0);
    world.set_terrain(Pos::new(1, 2), -101);
    assert_eq!(world.cells[1][2].water, 101);
    world.set_terrain(Pos::new(1, 3), -799);
    assert_eq!(world.cells[1][3].water, 799);
    world.set_terrain(Pos::new(1, 4), -5000);
    assert_eq!(world.cells[1][4].water, 800);
    world.set_terrain(Pos::new(1, 5), i32::MIN);
    assert_eq!(world.cells[1][5].water, 800);
    world.set_terrain(Pos::new(1, 6), 512);
    assert_eq!((world.cells[1][6].terrain_height, world.cells[1][6].water), (512, 0));
}

#[test]
fn world_clone_is_a_deep_copy() {
    let mut world = World::new();
    let id = world.add_bug(Bug::new(0, Pos::new(10, 10), 0));
    let copy = world.clone();
    world.remove_bug(id);
    world.cells[0][0].food = 9;
    assert_eq!(copy.bug_count(), 1);
    assert_eq!(copy.get_bug_at(Pos::new(10, 10)).unwrap().id, id);
    assert_eq!(copy.cells[0][0].food, 0);
}

#[test]
fn ids_come_out_sorted() {
    let mut world = World::new();
    for i in 0..50 {
        world.add_bug(Bug::new(0, Pos::new(i * 7 % 50, 3), 0));
    }
    for id in [4u64, 9, 30, 31] {
        world.remove_bug(id);
    }
    let ids = world.bug_ids();
    assert_eq!(ids.len(), 46);
    assert!(ids.windows(2).all(|w| w[0] < w[1]));
    assert!(!ids.contains(&9));
    assert_eq!(ids[0], 1);
    assert_eq!(ids[45], 50);
}

fn two_bugs() -> (World, u64, u64) {
    let mut world = World::new();
    let a = world.add_bug(Bug::new(0, Pos::new(10, 10), 0));
    let b = world.add_bug(Bug::new(0, Pos::new(11, 10), 0));
    (world, a, b)
}

#[test]
fn worlds_built_through_their_operations_are_well_formed() {
    assert!(World::new().is_well_formed());
    let (mut world, a, b) = two_bugs();
    assert!(world.is_well_formed());
    world.move_bug(a, Pos::new(-1, -1));
    assert!(world.is_well_formed());
    world.remove_bug(b);
    assert!(world.is_well_formed());
    world.set_terrain(Pos::new(3, 3), -500);
    world.get_bug_mut(a).unwrap().current_state.weight = -5;
    assert!(world.is_well_formed());
    assert!(world.clone().is_well_formed());
}

#[test]
fn a_bug_that_left_its_cell_behind_the_index_is_found() {
    let (mut world, a, _) = two_bugs();
    world.get_bug_mut(a).unwrap().current_state.pos = Pos::new(50, 50);
    assert!(!world.is_well_formed());
}

#[test]
fn two_bugs_on_one_cell_are_found() {
    let (mut world, a, _) = two_bugs();
    world.get_bug_mut(a).unwrap().current_state.pos = Pos::new(11, 10);
    assert!(!world.is_well_formed());
}

#[test]
fn a_stale_index_entry_is_found() {
    let (mut world, a, _) = two_bugs();
    world.bug_positions.insert(key_of(Pos::new(70, 70)), a);
    assert!(!world.is_well_formed());
    let (mut world, a, _) = two_bugs();
    world.bugs.remove(&a);
    assert!(!world.is_well_formed());
}

#[test]
fn a_bug_out_of_shape_is_found() {
    let spoil: [fn(&mut Bug); 9] = [
        |b| b.brain.decisions[3].1.genes.push({
            let mut gene = bugs::gene::Gene::new_constant(1);
            gene.prod_index = Some(1);
            gene
        }),
        |b| b.id = 99,
        |b| b.current_state.facing = 4,
        |b| b.current_state.facing = -3,
        |b| b.brain.divide_count = 1,
        |b| b.brain.divide_count = 8,
        |b| {
            b.brain.decisions.pop();
        },
        |b| {
            b.position_history.pop();
        },
        |b| b.current_state.pos = Pos::new(-1, 10),
    ];
    for change in spoil {
        let (mut world, a, _) = two_bugs();
        change(world.get_bug_mut(a).unwrap());
        assert!(!world.is_well_formed());
    }
    let (mut world, _, _) = two_bugs();
    world.next_bug_id = 2;
    assert!(!world.is_well_formed());
}

#[test]
fn a_grid_of_the_wrong_size_is_found() {
    let mut world = World::new();
    world.cells[5].pop();
    assert!(!world.is_well_formed());
    let mut world = World::new();
    world.cells.pop();
    assert!(!world.is_well_formed());
    let mut world = World::new();
    world.cells.push(Vec::new());
    assert!(!world.is_well_formed());
}

#[test]
fn keys_and_cells_are_inverse() {
    assert_eq!(key_of(Pos::new(0, 0)), 0);
    assert_eq!(key_of(Pos::new(1, 0)), 1000);
    assert_eq!(key_of(Pos::new(3, 7)), 3007);
    assert_eq!(cell_of(3007), Pos::new(3, 7));
    assert_eq!(cell_of(0), Pos::new(0, 0));
    let last = (WORLD_X * WORLD_Y - 1) as u64;
    assert_eq!(cell_of(last), Pos::new(WORLD_X as i32 - 1, WORLD_Y as i32 - 1));
    assert_eq!(key_of(cell_of(last)), last);
}
