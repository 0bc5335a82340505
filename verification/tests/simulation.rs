use bugs::bug::{Bug, Pos};
use bugs::constants::{
    ACT_DIVIDE, ACT_EAT, ACT_MATE, ACT_MOVE, ACT_SLEEP, ACT_TURN_CCW, ACT_TURN_CW, FOOD_CAP,
    FOOD_START, L_HIST, N_SENSES, POP_TARGET, SELF_AGE, THIRST_SENSE, WORLD_X, WORLD_Y,
};
use bugs::gene::{Chromosome, Gene, GeneType};
use bugs::genetics::mutate_brain;
use bugs::simulation::{SimConfig, Simulation, HUMP_UNIT};
use bugs::world::WorldStats;
use rand_chacha::rand_core::{RngCore, SeedableRng};

#[test]
fn test_simulation_creation() {
    let sim = Simulation::new(SimConfig::default());
    assert_eq!(sim.world.bug_count(), 1);
}

#[test]
fn test_simulation_step() {
    let mut sim = Simulation::new(SimConfig::default());
    let initial_tick = sim.world.current_tick;
    sim.step();
    assert_eq!(sim.world.current_tick, initial_tick + 1);
}

#[test]
fn test_determinism() {
    let config = SimConfig {
        seed: 12345,
        max_ticks: Some(100),
    };

    let mut sim1 = Simulation::new(config.clone());
    let mut sim2 = Simulation::new(config);

    for _ in 0..100 {
        sim1.step();
        sim2.step();
    }

    assert_eq!(sim1.world.bug_count(), sim2.world.bug_count());
    assert_eq!(sim1.world.total_food(), sim2.world.total_food());
}

const HOME: Pos = Pos { x: 880, y: 500 };

fn constant(value: i32) -> Chromosome {
    Chromosome::with_genes(vec![Gene::new_constant(value)], Default::default())
}

/// Makes bug `id` prefer `action` over everything else.
fn devote(sim: &mut Simulation, id: u64, action: usize) {
    let bug = sim.world.get_bug_mut(id).unwrap();
    for i in 0..8 {
        let value = if i == action { 1000 } else { 0 };
        bug.brain.decisions[i] = (constant(value), constant(value));
    }
    bug.brain.update_gene_count();
}

fn weight_of(sim: &Simulation, id: u64) -> i32 {
    sim.world.get_bug(id).unwrap().current_state.weight
}

/// Checks that the index is the inverse of the bugs' positions.
fn assert_spatial_invariant(sim: &Simulation) {
    assert!(sim.is_well_formed());
    assert_eq!(sim.world.bug_positions.len(), sim.world.bugs.len());
    for (id, bug) in sim.world.bugs.iter() {
        assert_eq!(bug.id, *id);
        let pos = bug.current_state.pos;
        assert!(0 <= pos.x && (pos.x as usize) < WORLD_X && 0 <= pos.y && (pos.y as usize) < WORLD_Y);
        assert_eq!(sim.world.get_bug_at(pos).unwrap().id, *id);
        assert_eq!(
            sim.world.bug_positions.get(&(pos.x as u64 * WORLD_Y as u64 + pos.y as u64)),
            Some(id)
        );
    }
}

#[test]
fn a_run_starts_with_the_founder_on_seeded_ground() {
    let mut sim = Simulation::new(SimConfig { seed: 7, max_ticks: None });
    assert_eq!(sim.world.current_tick, 0);
    assert_eq!(sim.world.next_bug_id, 2);
    assert_eq!(sim.world.total_food(), 1760 * 1000 * 128000);
    let corner = sim.world.get_cell(Pos::new(0, 0)).unwrap();
    assert_eq!((corner.food, corner.water, corner.terrain_height), (FOOD_START, 0, 0));
    assert_eq!((sim.food_hump, sim.safety, sim.leak, sim.force_mate), (HUMP_UNIT, 1, 1, 0));
    assert_eq!((sim.cost_mate, sim.drink_or_die, sim.age_div, sim.target_pop), (12, 0, 0, POP_TARGET));
    assert!(sim.stats_history.is_empty());

    let mut stream = rand_chacha::ChaCha8Rng::seed_from_u64(7);
    let uid = stream.next_u64();
    let colour: Vec<u8> = (0..3).map(|_| (stream.next_u32() % 256) as u8).collect();
    let founder = sim.world.get_bug(1).unwrap();
    assert_eq!(founder.current_state.pos, HOME);
    assert_eq!(founder.current_state.weight, 10240);
    assert_eq!(founder.data.birthday, 0);
    assert_eq!(founder.brain.ethnicity.uid, uid);
    assert_eq!(
        vec![founder.brain.ethnicity.r, founder.brain.ethnicity.g, founder.brain.ethnicity.b],
        colour
    );
    assert_eq!(founder.brain.n_genes, 16);
    assert_eq!(founder.brain.generation, 0);
    let values: Vec<(i32, i32)> = founder
        .brain
        .decisions
        .iter()
        .map(|(a, b)| (a.genes[0].c1, b.genes[0].c1))
        .collect();
    assert_eq!(
        values,
        vec![(5, 5), (0, 100), (20, 20), (20, 20), (40, 40), (15, 15), (1000, 1000), (10, 10)]
    );
    assert_eq!(founder.brain.decisions[1].0.genes[0].gene_type, GeneType::Sense);
    assert_eq!(founder.brain.decisions[1].0.genes[0].sense_index, 0);
    assert_eq!(founder.brain.decisions[6].0.ethnicity, founder.brain.ethnicity);
    // Five words of the stream went into the founder's lineage.
    assert_eq!(sim.rng.gen_u32(), stream.next_u32());
    assert_spatial_invariant(&sim);
}

#[test]
fn the_founder_eats_in_the_first_tick() {
    let mut sim = Simulation::new(SimConfig::default());
    assert!(sim.step());
    let founder = sim.world.get_bug(1).unwrap();
    assert_eq!(founder.current_state.action, ACT_EAT);
    assert_eq!(founder.current_state.weight, 10340);
    assert_eq!(founder.data.food_consumed, 100);
    assert_eq!(founder.current_state.pos, HOME);
    // One bite taken, then food grew by ten in every cell.
    assert_eq!(sim.world.get_cell(HOME).unwrap().food, 128000 - 100 + 10);
    assert_eq!(sim.world.get_cell(Pos::new(0, 0)).unwrap().food, 128010);
    assert_eq!(sim.world.total_food(), 1760 * 1000 * 128010 - 100);
    assert_eq!(sim.stats_history.len(), 1);
    let stats = sim.stats_history[0];
    assert_eq!((stats.tick, stats.bug_count), (1, 1));
    assert_eq!((stats.total_bug_mass, stats.avg_bug_mass), (10340, 10340));
    assert_eq!(stats.total_food, 1760 * 1000 * 128010 - 100);
    assert_eq!(stats.avg_food_per_cell, 128009);
    assert_eq!(stats.avg_genes, 16 * 1024);
    assert_eq!(sim.stats().total_bug_mass, 10340);
}

#[test]
fn the_founder_survives_past_fifty_ticks() {
    let mut sim = Simulation::new(SimConfig::default());
    for tick in 1..=60 {
        assert!(sim.step());
        assert_eq!(sim.world.current_tick, tick);
        assert!(sim.world.bug_count() >= 1);
    }
    assert_eq!(weight_of(&sim, 1), 10240 + 60 * 100);
    assert_spatial_invariant(&sim);
}

#[test]
fn the_run_ends_at_the_tick_ceiling() {
    let mut sim = Simulation::new(SimConfig { seed: 1, max_ticks: Some(3) });
    assert!(sim.step());
    assert!(sim.step());
    assert!(!sim.step());
    assert_eq!(sim.world.current_tick, 3);
    assert_eq!(sim.world.bug_count(), 1);
}

#[test]
fn a_starved_bug_is_removed_and_stays_away() {
    let mut sim = Simulation::new(SimConfig::default());
    {
        let bug = sim.world.get_bug_mut(1).unwrap();
        bug.current_state.weight = 12;
        // With no copy expressed every score is 0 and the first category,
        // sleep, wins.
        bug.brain.expression = 0;
    }
    assert!(!sim.step());
    assert_eq!(sim.world.bug_count(), 0);
    assert!(sim.world.get_bug(1).is_none());
    assert!(sim.world.get_bug_at(HOME).is_none());
    assert!(sim.world.bug_positions.is_empty());
    assert_eq!(sim.stats_history[0].bug_count, 0);
    assert_eq!(sim.stats_history[0].tick, 0);
    for _ in 0..3 {
        assert!(!sim.step());
        assert!(sim.world.get_bug(1).is_none());
    }
    assert_eq!(sim.world.next_bug_id, 2);
}

#[test]
fn a_bug_with_weight_left_survives_its_sleep() {
    let mut sim = Simulation::new(SimConfig::default());
    {
        let bug = sim.world.get_bug_mut(1).unwrap();
        bug.current_state.weight = 13;
        bug.brain.expression = 0;
    }
    assert!(sim.step());
    assert_eq!(weight_of(&sim, 1), 1);
    assert_eq!(sim.world.get_bug(1).unwrap().current_state.action, ACT_SLEEP);
}

#[test]
fn sleeping_costs_twelve() {
    let mut sim = Simulation::new(SimConfig::default());
    sim.world.get_bug_mut(1).unwrap().current_state.action = 9;
    sim.action_sleep(1);
    assert_eq!(weight_of(&sim, 1), 10240 - 12);
    assert_eq!(sim.world.get_bug(1).unwrap().current_state.action, ACT_SLEEP);
    sim.action_sleep(77);
    assert_eq!(sim.world.bug_count(), 1);
    sim.world.get_bug_mut(1).unwrap().current_state.weight = i32::MIN + 5;
    sim.action_sleep(1);
    assert_eq!(weight_of(&sim, 1), i32::MIN);
}

#[test]
fn eating_takes_at_most_one_bite() {
    let mut sim = Simulation::new(SimConfig::default());
    sim.action_eat(1);
    assert_eq!(weight_of(&sim, 1), 10340);
    assert_eq!(sim.world.get_cell(HOME).unwrap().food, 127900);
    sim.world.get_cell_mut(HOME).unwrap().food = 30;
    sim.action_eat(1);
    assert_eq!(weight_of(&sim, 1), 10370);
    assert_eq!(sim.world.get_cell(HOME).unwrap().food, 0);
    assert_eq!(sim.world.get_bug(1).unwrap().data.food_consumed, 130);
    sim.action_eat(1);
    assert_eq!(weight_of(&sim, 1), 10370);
    assert_eq!(sim.world.get_bug(1).unwrap().current_state.action, ACT_EAT);
    assert_eq!(sim.world.total_food(), 1760 * 1000 * 128000 - 128000);
}

#[test]
fn turning_rotates_by_one_step_either_way() {
    let mut sim = Simulation::new(SimConfig::default());
    let facing = |sim: &Simulation| sim.world.get_bug(1).unwrap().current_state.facing;
    let mut clockwise = vec![];
    for _ in 0..6 {
        sim.action_turn(1, 1);
        clockwise.push(facing(&sim));
    }
    assert_eq!(clockwise, vec![-1, -2, 3, 2, 1, 0]);
    assert_eq!(sim.world.get_bug(1).unwrap().current_state.action, ACT_TURN_CW);
    assert_eq!(weight_of(&sim, 1), 10240 - 6 * 16);
    let mut counter = vec![];
    for _ in 0..6 {
        sim.action_turn(1, -1);
        counter.push(facing(&sim));
    }
    assert_eq!(counter, vec![1, 2, 3, -2, -1, 0]);
    assert_eq!(sim.world.get_bug(1).unwrap().current_state.action, ACT_TURN_CCW);
    assert_eq!(weight_of(&sim, 1), 10240 - 12 * 16);
}

#[test]
fn moving_steps_along_the_facing_and_records_the_state() {
    let mut sim = Simulation::new(SimConfig::default());
    sim.action_move(1);
    let bug = sim.world.get_bug(1).unwrap();
    assert_eq!(bug.current_state.pos, Pos::new(881, 500));
    assert_eq!(bug.current_state.weight, 10240 - 96);
    assert_eq!(bug.current_state.action, ACT_MOVE);
    assert_eq!(bug.data.moves, 1);
    // The state before the move went onto the history.
    assert_eq!(bug.position_history.len(), 32);
    assert_eq!(bug.position_history[0].pos, HOME);
    assert_eq!(bug.position_history[0].weight, 10240);
    assert_eq!(bug.position_history[0].action, ACT_SLEEP);
    assert!(sim.world.get_bug_at(HOME).is_none());
    assert_spatial_invariant(&sim);
    sim.action_turn(1, 1);
    sim.action_move(1);
    let bug = sim.world.get_bug(1).unwrap();
    // Facing north-east from an even row.
    assert_eq!(bug.current_state.pos, Pos::new(881, 499));
    assert_eq!(bug.data.moves, 2);
    assert_eq!(bug.position_history[0].pos, Pos::new(881, 500));
    assert_eq!(bug.position_history[0].weight, 10240 - 96 - 16);
    assert_eq!(bug.position_history[0].action, ACT_TURN_CW);
    assert_eq!(bug.position_history[0].facing, -1);
    assert_eq!(bug.position_history[1].pos, HOME);
    assert_eq!(bug.position_history[31].weight, 10240);
}

#[test]
fn a_blocked_move_changes_nothing() {
    let mut sim = Simulation::new(SimConfig::default());
    let other = sim.world.add_bug(Bug::new(0, Pos::new(881, 500), 0));
    sim.action_move(1);
    let bug = sim.world.get_bug(1).unwrap();
    assert_eq!(bug.current_state.pos, HOME);
    assert_eq!(bug.current_state.weight, 10240);
    assert_eq!(bug.current_state.action, ACT_SLEEP);
    assert_eq!(bug.data.moves, 0);
    assert_eq!(sim.world.get_bug(other).unwrap().current_state.pos, Pos::new(881, 500));
    assert_spatial_invariant(&sim);
}

#[test]
fn moves_wrap_around_the_edge() {
    let mut sim = Simulation::new(SimConfig::default());
    let id = sim.world.add_bug(Bug::new(0, Pos::new(WORLD_X as i32 - 1, 3), 0));
    sim.action_move(id);
    assert_eq!(sim.world.get_bug(id).unwrap().current_state.pos, Pos::new(0, 3));
    assert_spatial_invariant(&sim);
}

#[test]
fn mating_without_a_partner_still_costs() {
    let mut sim = Simulation::new(SimConfig::default());
    let mut untouched = sim.rng.clone();
    sim.action_mate(1);
    let bug = sim.world.get_bug(1).unwrap();
    assert_eq!(bug.current_state.weight, 10240 - 12);
    assert_eq!(bug.current_state.action, ACT_MATE);
    assert_eq!(bug.data.mate_success, 0);
    assert_eq!(sim.rng.gen_u32(), untouched.gen_u32());
}

#[test]
fn mating_exchanges_chromosomes_on_coin_flips() {
    let mut sim = Simulation::new(SimConfig { seed: 5, max_ticks: None });
    let partner = sim.world.add_bug(Bug::new(0, Pos::new(881, 500), 0));
    devote(&mut sim, partner, ACT_SLEEP);
    sim.cost_mate = 48;
    let mut coins = sim.rng.clone();
    let mine: Vec<(i32, i32)> = vec![(5, 5), (0, 100), (20, 20), (20, 20), (40, 40), (15, 15), (1000, 1000), (10, 10)];
    let theirs: Vec<(i32, i32)> = vec![(1000, 1000), (0, 0), (0, 0), (0, 0), (0, 0), (0, 0), (0, 0), (0, 0)];
    let mut expected_mine = vec![];
    let mut expected_theirs = vec![];
    let mut flipped = 0;
    for i in 0..8 {
        let a = (coins.gen_u32() as u64) * 100 < 50 * (u32::MAX as u64);
        let b = (coins.gen_u32() as u64) * 100 < 50 * (u32::MAX as u64);
        flipped += a as u32 + b as u32;
        expected_mine.push((if a { theirs[i].0 } else { mine[i].0 }, if b { theirs[i].1 } else { mine[i].1 }));
        expected_theirs.push((if a { mine[i].0 } else { theirs[i].0 }, if b { mine[i].1 } else { theirs[i].1 }));
    }
    assert!(flipped > 0 && flipped < 16);

    sim.action_mate(1);

    let values = |sim: &Simulation, id: u64| -> Vec<(i32, i32)> {
        sim.world.get_bug(id).unwrap().brain.decisions.iter().map(|(a, b)| (a.genes[0].c1, b.genes[0].c1)).collect()
    };
    assert_eq!(values(&sim, 1), expected_mine);
    assert_eq!(values(&sim, partner), expected_theirs);
    assert_eq!(sim.world.get_bug(1).unwrap().data.mate_success, 1);
    assert_eq!(sim.world.get_bug(partner).unwrap().data.mate_success, 1);
    assert_eq!(weight_of(&sim, 1), 10240 - 48);
    assert_eq!(weight_of(&sim, partner), 10240);
    assert_eq!(sim.world.get_bug(1).unwrap().current_state.action, ACT_MATE);
    assert_eq!(sim.world.get_bug(partner).unwrap().current_state.action, ACT_SLEEP);
    assert_eq!(sim.rng.gen_u32(), coins.gen_u32());
    assert_spatial_invariant(&sim);
}

#[test]
fn a_bug_below_the_required_mass_does_not_divide() {
    let mut sim = Simulation::new(SimConfig::default());
    sim.world.get_bug_mut(1).unwrap().current_state.weight = 2047;
    sim.action_divide(1);
    let bug = sim.world.get_bug(1).unwrap();
    assert_eq!(bug.current_state.weight, 2047);
    assert_eq!(bug.current_state.action, ACT_SLEEP);
    assert_eq!(bug.data.children, 0);
    assert_eq!(sim.world.bug_count(), 1);
}

#[test]
fn division_splits_the_weight_among_parent_and_offspring() {
    let mut sim = Simulation::new(SimConfig { seed: 9, max_ticks: None });
    sim.world.current_tick = 40;
    {
        let bug = sim.world.get_bug_mut(1).unwrap();
        bug.current_state.weight = 3001;
        bug.brain.generation = 4;
    }
    let mut reference = sim.rng.clone();
    let parent_brain = sim.world.get_bug(1).unwrap().brain.clone();

    sim.action_divide(1);

    assert_eq!(sim.world.bug_count(), 3);
    assert_eq!(sim.world.bug_ids(), vec![1, 2, 3]);
    let parent = sim.world.get_bug(1).unwrap();
    assert_eq!(parent.current_state.weight, 1000);
    assert_eq!(parent.current_state.action, ACT_DIVIDE);
    assert_eq!(parent.data.children, 2);
    assert_eq!(parent.brain.generation, 4);
    assert_eq!(parent.current_state.pos, HOME);
    // Facing east on an even row, the offspring go south-west and west.
    let spots = [Pos::new(879, 501), Pos::new(879, 500)];
    for (k, id) in [2u64, 3].iter().enumerate() {
        let child = sim.world.get_bug(*id).unwrap();
        assert_eq!(child.current_state.pos, spots[k]);
        assert_eq!(child.current_state.weight, 3001 / 3);
        assert_eq!(child.current_state.facing, 0);
        assert_eq!(child.current_state.hydrate, 10);
        assert_eq!(child.data.birthday, 40);
        assert_eq!(child.data.children, 0);
        assert_eq!(child.brain.generation, 5);
        assert_eq!(child.position_history.len(), 32);
        assert_eq!(child.position_history[0].weight, 10240);
        let mut expected = parent_brain.clone();
        expected.generation = 5;
        mutate_brain(&mut reference, &mut expected);
        assert_eq!(child.brain.n_genes, expected.n_genes);
        assert_eq!(child.brain.expression, expected.expression);
        assert_eq!(child.brain.divide_count, expected.divide_count);
        for i in 0..8 {
            assert_eq!(child.brain.decisions[i].0.genes.len(), expected.decisions[i].0.genes.len());
            assert_eq!(child.brain.decisions[i].1.genes.len(), expected.decisions[i].1.genes.len());
        }
    }
    assert_eq!(sim.rng.gen_u32(), reference.gen_u32());
    assert_spatial_invariant(&sim);
}

#[test]
fn offspring_skip_occupied_cells() {
    let mut sim = Simulation::new(SimConfig::default());
    let squatter = sim.world.add_bug(Bug::new(0, Pos::new(879, 500), 0));
    sim.world.get_bug_mut(1).unwrap().current_state.weight = 3000;
    sim.action_divide(1);
    assert_eq!(sim.world.bug_count(), 3);
    let parent = sim.world.get_bug(1).unwrap();
    assert_eq!(parent.data.children, 1);
    // The share is the weight over the fan-out plus one, however many
    // offspring found a cell.
    assert_eq!(parent.current_state.weight, 1000);
    let child = sim.world.get_bug(squatter + 1).unwrap();
    assert_eq!(child.current_state.pos, Pos::new(879, 501));
    assert_eq!(child.current_state.weight, 1000);
    assert_eq!(sim.world.get_bug(squatter).unwrap().current_state.weight, 10240);
    assert_spatial_invariant(&sim);
}

#[test]
fn a_full_fan_out_places_offspring_only_in_true_directions() {
    let mut sim = Simulation::new(SimConfig::default());
    {
        let bug = sim.world.get_bug_mut(1).unwrap();
        bug.brain.divide_count = 7;
        bug.current_state.weight = 8 * 1024;
    }
    sim.action_divide(1);
    // Directions 2, 3, 4, 5, 0, 1, 2: the third and fourth name no
    // direction and the last repeats the first.
    let spots: Vec<Pos> = (2..=5).map(|id| sim.world.get_bug(id).unwrap().current_state.pos).collect();
    assert_eq!(
        spots,
        vec![Pos::new(879, 501), Pos::new(879, 500), Pos::new(881, 500), Pos::new(880, 501)]
    );
    assert_eq!(sim.world.bug_count(), 5);
    let parent = sim.world.get_bug(1).unwrap();
    assert_eq!(parent.data.children, 4);
    assert_eq!(parent.current_state.weight, 1024);
    assert_eq!(weight_of(&sim, 5), 1024);
    assert_spatial_invariant(&sim);
}

#[test]
fn an_underage_bug_pays_a_penalty_instead_of_dividing() {
    let mut sim = Simulation::new(SimConfig::default());
    sim.world.current_tick = 3;
    sim.force_mate = 0x71;
    sim.age_div = 10;
    sim.action_divide(1);
    // Seven ticks short of the minimum age, at stage 7.
    assert_eq!(weight_of(&sim, 1), 10240 - 49);
    assert_eq!(sim.world.bug_count(), 1);
    assert_eq!(sim.world.get_bug(1).unwrap().current_state.action, ACT_SLEEP);

    sim.world.current_tick = 10;
    sim.action_divide(1);
    assert_eq!(sim.world.bug_count(), 3);

    // Without the low bit the rule is off.
    let mut free = Simulation::new(SimConfig::default());
    free.force_mate = 0x70;
    free.age_div = 10;
    free.action_divide(1);
    assert_eq!(free.world.bug_count(), 3);
}

#[test]
fn senses_describe_the_six_neighbours_and_the_bug_itself() {
    let mut sim = Simulation::new(SimConfig::default());
    sim.world.current_tick = 30;
    sim.world.get_bug_mut(1).unwrap().current_state.facing = 1;
    sim.world.get_bug_mut(1).unwrap().data.birthday = 4;
    // East, south-east, south-west, west, north-west, north-east of an
    // even row.
    let around = [
        Pos::new(881, 500),
        Pos::new(880, 501),
        Pos::new(879, 501),
        Pos::new(879, 500),
        Pos::new(879, 499),
        Pos::new(880, 499),
    ];
    for (i, pos) in around.iter().enumerate() {
        sim.world.get_cell_mut(*pos).unwrap().food = 100 + i as i32;
    }
    let west = sim.world.add_bug(Bug::new(0, around[3], 0));
    {
        let bug = sim.world.get_bug_mut(west).unwrap();
        bug.current_state.weight = 5 * 1024 + 1023;
        bug.current_state.facing = -2;
    }
    let senses = sim.world.gather_senses(1);
    assert_eq!(senses.len(), N_SENSES);
    for i in 0..6 {
        assert_eq!(senses[4 * i], 100 + i as i32);
    }
    // Mass in whole units, and the facing relative to the sensing bug's:
    // (-2 - 1 + 6) mod 6.
    assert_eq!(&senses[12..16], &[103, 5, 3, 0]);
    assert_eq!(&senses[0..4], &[100, 0, 0, 0]);
    assert_eq!(senses[SELF_AGE], 26);
    assert_eq!(senses[THIRST_SENSE], 10);
    assert!(senses[24..SELF_AGE].iter().all(|s| *s == 0));
    assert!(sim.world.gather_senses(99).iter().all(|s| *s == 0));
}

#[test]
fn difficulty_ratchets_at_fixed_ticks() {
    let mut sim = Simulation::new(SimConfig::default());
    let mut at = |tick: i32| {
        sim.world.current_tick = tick;
        sim.update_dynamics();
        (sim.force_mate, sim.cost_mate, sim.drink_or_die)
    };
    assert_eq!(at(2999), (0, 12, 0));
    assert_eq!(at(3000), (0x10, 12, 0));
    assert_eq!(at(3001), (0x10, 12, 0));
    assert_eq!(at(4000), (0x30, 12, 0));
    assert_eq!(at(5000), (0x70, 12, 0));
    assert_eq!(at(6000), (0x71, 12, 0));
    assert_eq!(at(7000), (0x73, 12, 0));
    assert_eq!(at(8000), (0x77, 12, 0));
    assert_eq!(at(9000), (0x7F, 12, 0));
    assert_eq!(at(10000), (0x7F, 24, 0));
    assert_eq!(at(11000), (0x7F, 48, 0));
    assert_eq!(at(12000), (0x7F, 96, 0));
    assert_eq!(at(13000), (0x7F, 144, 0));
    assert_eq!(at(14000), (0x7F, 144, 3));
    assert_eq!(at(15000), (0x7F, 144, 2));
    assert_eq!(at(16000), (0x7F, 144, 1));
    assert_eq!(at(17000), (0x7F, 144, 1));
}

#[test]
fn food_growth_tunes_itself_after_the_first_season() {
    let mut sim = Simulation::new(SimConfig::default());
    // Before the season is over nothing moves.
    sim.world.current_tick = 8192;
    sim.update_dynamics();
    assert_eq!((sim.food_hump, sim.age_div), (HUMP_UNIT, 0));
    // A low age feedback raises the growth every 32 ticks.
    sim.world.current_tick = 8224;
    sim.update_dynamics();
    assert_eq!(sim.food_hump, 1_001_000_000);
    // The feedback went up for the eighth tick and down again because the
    // population is below target.
    assert_eq!(sim.age_div, 0);
    sim.world.current_tick = 8225;
    sim.update_dynamics();
    assert_eq!(sim.food_hump, 1_001_000_000);
    // A high age feedback lowers it.
    sim.age_div = 301;
    sim.world.current_tick = 8256;
    sim.update_dynamics();
    assert_eq!(sim.food_hump, 1_001_000_000i64 * 1000 / 1001);
    assert_eq!(sim.age_div, 301);
    // With the population at target the feedback only climbs.
    sim.target_pop = 1;
    sim.world.current_tick = 8264;
    sim.update_dynamics();
    assert_eq!(sim.age_div, 302);
    sim.world.current_tick = 8265;
    sim.update_dynamics();
    assert_eq!(sim.age_div, 302);
}

#[test]
fn food_grows_by_the_multiplier_up_to_the_cap() {
    let mut sim = Simulation::new(SimConfig::default());
    sim.world.get_cell_mut(Pos::new(1, 1)).unwrap().food = FOOD_CAP - 3;
    sim.world.get_cell_mut(Pos::new(1, 2)).unwrap().food = FOOD_CAP + 50;
    sim.grow_food();
    assert_eq!(sim.world.get_cell(Pos::new(0, 0)).unwrap().food, FOOD_START + 10);
    assert_eq!(sim.world.get_cell(Pos::new(1, 1)).unwrap().food, FOOD_CAP);
    assert_eq!(sim.world.get_cell(Pos::new(1, 2)).unwrap().food, FOOD_CAP);
    assert_eq!(sim.world.get_cell(HOME).unwrap().food, FOOD_START + 10);
    sim.food_hump = 1_590_000_000;
    sim.grow_food();
    assert_eq!(sim.world.get_cell(Pos::new(0, 0)).unwrap().food, FOOD_START + 25);
    sim.food_hump = 99_999_999;
    sim.grow_food();
    assert_eq!(sim.world.get_cell(Pos::new(0, 0)).unwrap().food, FOOD_START + 25);
}

#[test]
fn with_the_leak_off_no_food_grows_under_a_bug() {
    let mut sim = Simulation::new(SimConfig::default());
    sim.leak = 0;
    sim.grow_food();
    assert_eq!(sim.world.get_cell(HOME).unwrap().food, FOOD_START);
    assert_eq!(sim.world.get_cell(Pos::new(881, 500)).unwrap().food, FOOD_START + 10);
}

#[test]
fn the_statistics_window_is_bounded() {
    let mut sim = Simulation::new(SimConfig::default());
    for _ in 0..L_HIST {
        sim.stats_history.push_back(WorldStats::default());
    }
    sim.stats_history[0].tick = -1;
    sim.stats_history[1].tick = -2;
    sim.step();
    assert_eq!(sim.stats_history.len(), L_HIST);
    assert_eq!(sim.stats_history[0].tick, -2);
    assert_eq!(sim.stats_history[L_HIST - 1].tick, 1);
}

fn fingerprint(sim: &Simulation) -> Vec<(u64, i32, i32, i32, u32, u16, u16, u8)> {
    sim.world
        .bug_ids()
        .iter()
        .map(|id| {
            let b = sim.world.get_bug(*id).unwrap();
            (
                *id,
                b.current_state.pos.x,
                b.current_state.pos.y,
                b.current_state.weight,
                b.brain.generation,
                b.brain.n_genes,
                b.brain.expression,
                b.brain.divide_count,
            )
        })
        .collect()
}

fn dividing_run(seed: u64, ticks: u32) -> Simulation {
    let mut sim = Simulation::new(SimConfig { seed, max_ticks: None });
    devote(&mut sim, 1, ACT_DIVIDE);
    sim.world.get_bug_mut(1).unwrap().current_state.weight = 1 << 20;
    for _ in 0..ticks {
        sim.step();
        assert_spatial_invariant(&sim);
        for bug in sim.world.bugs.values() {
            assert!(bug.current_state.weight > 0);
        }
    }
    sim
}

#[test]
fn equal_seeds_give_equal_runs() {
    let mut a = dividing_run(2024, 12);
    let mut b = dividing_run(2024, 12);
    assert!(a.world.bug_count() > 20);
    assert_eq!(fingerprint(&a), fingerprint(&b));
    assert_eq!(a.world.total_food(), b.world.total_food());
    assert_eq!(a.world.total_bug_mass(), b.world.total_bug_mass());
    assert_eq!(a.world.next_bug_id, b.world.next_bug_id);
    assert_eq!(a.rng.gen_u64(), b.rng.gen_u64());
    let c = dividing_run(2025, 12);
    assert_ne!(fingerprint(&a), fingerprint(&c));
}

#[test]
fn bugs_act_in_ascending_order_of_identifier() {
    // Two bugs want the same free cell; the one with the lower identifier
    // gets it, whatever order they were added in.
    let mut sim = Simulation::new(SimConfig::default());
    sim.world.remove_bug(1);
    let west = sim.world.add_bug(Bug::new(0, Pos::new(10, 10), 0));
    let east = sim.world.add_bug(Bug::new(0, Pos::new(12, 10), 0));
    sim.world.get_bug_mut(east).unwrap().current_state.facing = 3;
    devote(&mut sim, west, ACT_MOVE);
    devote(&mut sim, east, ACT_MOVE);
    sim.step();
    assert_eq!(sim.world.get_bug(west).unwrap().current_state.pos, Pos::new(11, 10));
    assert_eq!(sim.world.get_bug(east).unwrap().current_state.pos, Pos::new(12, 10));
    assert_eq!(sim.world.get_bug(east).unwrap().data.moves, 0);
}

#[test]
fn offspring_first_act_in_the_tick_after_their_birth() {
    let mut sim = Simulation::new(SimConfig::default());
    devote(&mut sim, 1, ACT_DIVIDE);
    sim.step();
    assert_eq!(sim.world.bug_count(), 3);
    for id in [2u64, 3] {
        let child = sim.world.get_bug(id).unwrap();
        assert_eq!(child.current_state.action, ACT_SLEEP);
        assert_eq!(child.current_state.weight, 10240 / 3);
        assert_eq!(child.data.birthday, 1);
    }
    assert_eq!(sim.stats_history[0].bug_count, 3);
    assert_eq!(sim.stats_history[0].total_bug_mass, 3 * (10240 / 3) as i64);
}

#[test]
fn advancing_runs_ticks_until_the_run_ends() {
    let mut sim = Simulation::new(SimConfig { seed: 3, max_ticks: Some(5) });
    assert_eq!(sim.advance(0), 0);
    assert_eq!(sim.advance(3), 3);
    assert_eq!(sim.world.current_tick, 3);
    assert_eq!(sim.advance(10), 2);
    assert_eq!(sim.world.current_tick, 5);
    let mut stepped = Simulation::new(SimConfig { seed: 3, max_ticks: Some(5) });
    for _ in 0..5 {
        stepped.step();
    }
    assert_eq!(fingerprint(&sim), fingerprint(&stepped));
    assert_eq!(sim.world.total_food(), stepped.world.total_food());
}

#[test]
fn a_cloned_simulation_runs_like_the_one_it_was_cloned_from() {
    let mut sim = dividing_run(77, 4);
    let mut copy = sim.clone();
    sim.advance(4);
    copy.advance(4);
    assert_eq!(fingerprint(&sim), fingerprint(&copy));
    assert_eq!(sim.stats_history.len(), copy.stats_history.len());
    assert_eq!(sim.rng.gen_u32(), copy.rng.gen_u32());
}

#[test]
fn a_statistics_window_drops_its_oldest_record_when_full() {
    let mut window = std::collections::VecDeque::new();
    let mut stats = WorldStats::default();
    for tick in 0..(L_HIST as i32 + 2) {
        stats.tick = tick;
        bugs::simulation::record_stats(&mut window, stats);
    }
    assert_eq!(window.len(), L_HIST);
    assert_eq!(window[0].tick, 2);
    assert_eq!(window[L_HIST - 1].tick, L_HIST as i32 + 1);
}

#[test]
fn a_growth_multiplier_out_of_range_is_not_well_formed() {
    let mut sim = Simulation::new(SimConfig::default());
    assert!(sim.is_well_formed());
    sim.food_hump = -1;
    assert!(!sim.is_well_formed());
    sim.food_hump = bugs::simulation::HUMP_MAX;
    assert!(sim.is_well_formed());
    sim.food_hump = bugs::simulation::HUMP_MAX + 1;
    assert!(!sim.is_well_formed());
}

#[test]
fn a_checked_step_runs_only_where_a_step_may_run() {
    let mut sim = Simulation::new(SimConfig { seed: 3, max_ticks: Some(2) });
    assert_eq!(sim.checked_step(), Some(true));
    assert_eq!(sim.checked_step(), Some(false));
    assert_eq!(sim.world.current_tick, 2);
    // At the bound of the tick counter nothing is run.
    sim.world.current_tick = i32::MAX;
    let food = sim.world.total_food();
    assert_eq!(sim.checked_step(), None);
    assert_eq!(sim.world.current_tick, i32::MAX);
    assert_eq!(sim.world.total_food(), food);
    // Nor in a simulation that is not well-formed.
    sim.world.current_tick = 2;
    sim.world.bug_positions.clear();
    assert_eq!(sim.checked_step(), None);
    assert_eq!(sim.world.current_tick, 2);
}

#[test]
fn a_division_adds_as_many_bugs_as_identifiers_and_index_entries() {
    let mut sim = Simulation::new(SimConfig::default());
    sim.world.current_tick = 9;
    sim.world.get_bug_mut(1).unwrap().brain.divide_count = 5;
    sim.world.get_bug_mut(1).unwrap().current_state.facing = 3;
    let before = sim.world.bug_count();
    let next = sim.world.next_bug_id;
    sim.action_divide(1);
    let born = (sim.world.next_bug_id - next) as usize;
    assert_eq!(sim.world.bug_count(), before + born);
    assert_eq!(sim.world.bug_positions.len(), sim.world.bugs.len());
    assert_eq!(sim.world.get_bug(1).unwrap().data.children as usize, born);
    assert_eq!(sim.world.get_bug(1).unwrap().current_state.pos, HOME);
    let mut cells = vec![];
    for id in next..sim.world.next_bug_id {
        let child = sim.world.get_bug(id).unwrap();
        assert_eq!(child.data.birthday, 9);
        assert_eq!(child.current_state.facing, 3);
        assert_eq!(child.brain.generation, 1);
        assert_eq!(child.brain.n_genes, child.brain.count_genes());
        assert!((2..=7).contains(&child.brain.divide_count));
        assert!(child.brain.is_well_formed());
        let pos = child.current_state.pos;
        assert!((pos.x - 880).abs() <= 1 && (pos.y - 500).abs() <= 1 && pos != HOME);
        assert!(!cells.contains(&pos));
        cells.push(pos);
    }
    assert!(born >= 2);
    assert!(sim.is_well_formed());
}
