use bugs::bug::{Bug, BugBrain, Pos};
use bugs::constants::{DIR_E, DIR_NE, DIR_NW, DIR_SE, DIR_SW, DIR_W, N_DECISIONS, POS_HISTORY, WORLD_X, WORLD_Y};
use bugs::gene::{Chromosome, Ethnicity, Gene};

#[test]
fn test_pos_step() {
    let pos = Pos::new(10, 10);
    assert_eq!(pos.step(DIR_E), Pos::new(11, 10));
    assert_eq!(pos.step(DIR_W), Pos::new(9, 10));
}

#[test]
fn test_pos_wrap() {
    let pos = Pos::new(-1, 10);
    assert_eq!(pos.wrap(), Pos::new(WORLD_X as i32 - 1, 10));

    let pos = Pos::new(WORLD_X as i32, 10);
    assert_eq!(pos.wrap(), Pos::new(0, 10));
}

#[test]
fn test_bug_creation() {
    let bug = Bug::new(1, Pos::new(100, 100), 0);
    assert_eq!(bug.id, 1);
    assert_eq!(bug.age(100), 100);
    assert_eq!(bug.dry_weight(), 10);
}

#[test]
fn step_leans_with_row_parity() {
    let even = Pos::new(10, 10);
    assert_eq!(even.step(DIR_SE), Pos::new(10, 11));
    assert_eq!(even.step(DIR_SW), Pos::new(9, 11));
    assert_eq!(even.step(DIR_NE), Pos::new(10, 9));
    assert_eq!(even.step(DIR_NW), Pos::new(9, 9));
    let odd = Pos::new(10, 11);
    assert_eq!(odd.step(DIR_SE), Pos::new(11, 12));
    assert_eq!(odd.step(DIR_SW), Pos::new(10, 12));
    assert_eq!(odd.step(DIR_NE), Pos::new(11, 10));
    assert_eq!(odd.step(DIR_NW), Pos::new(10, 10));
}

#[test]
fn step_ignores_what_is_no_direction() {
    let pos = Pos::new(10, 10);
    assert_eq!(pos.step(4), pos);
    assert_eq!(pos.step(5), pos);
    assert_eq!(pos.step(-3), pos);
}

#[test]
fn wrap_brings_both_axes_into_the_world() {
    assert_eq!(Pos::new(5, -1).wrap(), Pos::new(5, WORLD_Y as i32 - 1));
    assert_eq!(Pos::new(5, WORLD_Y as i32).wrap(), Pos::new(5, 0));
    assert_eq!(Pos::new(-7, 2000).wrap(), Pos::new(WORLD_X as i32 - 1, 0));
    assert_eq!(Pos::new(3, 4).wrap(), Pos::new(3, 4));
}

#[test]
fn new_bug_starts_asleep_facing_east() {
    let bug = Bug::new(9, Pos::new(3, 4), 17);
    assert_eq!(bug.current_state.pos, Pos::new(3, 4));
    assert_eq!(bug.current_state.facing, DIR_E);
    assert_eq!(bug.current_state.action, 0);
    assert_eq!(bug.current_state.weight, 10240);
    assert_eq!(bug.current_state.hydrate, 10);
    assert_eq!(bug.data.birthday, 17);
    assert_eq!(bug.brain.ethnicity.uid, 9);
    assert_eq!(bug.brain.divide_count, 2);
    assert_eq!(bug.brain.expression, 0xFFFF);
    assert_eq!(bug.brain.decisions.len(), N_DECISIONS);
    assert_eq!(bug.position_history.len(), POS_HISTORY);
    assert_eq!(bug.age(5), -12);
}

#[test]
fn age_is_held_to_the_i32_range() {
    let bug = Bug::new(1, Pos::new(0, 0), i32::MIN);
    assert_eq!(bug.age(i32::MAX), i32::MAX);
}

#[test]
fn record_position_pushes_the_current_state() {
    let mut bug = Bug::new(1, Pos::new(3, 4), 0);
    bug.current_state.pos = Pos::new(4, 4);
    bug.current_state.weight = 77;
    bug.record_position();
    assert_eq!(bug.position_history.len(), POS_HISTORY);
    assert_eq!(bug.position_history[0].pos, Pos::new(4, 4));
    assert_eq!(bug.position_history[0].weight, 77);
    assert_eq!(bug.position_history[1].pos, Pos::new(3, 4));
    assert_eq!(bug.position_history[1].weight, 10240);
}

#[test]
fn dry_weight_rounds_towards_zero() {
    let mut bug = Bug::new(1, Pos::new(0, 0), 0);
    bug.current_state.weight = 2047;
    assert_eq!(bug.dry_weight(), 1);
    bug.current_state.weight = -2047;
    assert_eq!(bug.dry_weight(), -1);
}

#[test]
fn would_drown_compares_depth_with_ten_times_the_mass() {
    let bug = Bug::new(1, Pos::new(0, 0), 0);
    assert!(!bug.would_drown(100));
    assert!(bug.would_drown(101));
}

#[test]
fn gene_cost_is_the_cube_over_the_squared_knee() {
    let mut bug = Bug::new(1, Pos::new(0, 0), 0);
    assert_eq!(bug.gene_cost(), 0);
    bug.brain.n_genes = 96;
    assert_eq!(bug.gene_cost(), 96);
    bug.brain.n_genes = 192;
    assert_eq!(bug.gene_cost(), 768);
    bug.brain.n_genes = 65535;
    assert_eq!(bug.gene_cost(), i32::MAX);
}

#[test]
fn count_genes_sums_all_chromosomes() {
    let mut brain = BugBrain::new();
    assert_eq!(brain.count_genes(), 0);
    brain.decisions[0].0.genes.push(Gene::new_constant(1));
    brain.decisions[7].1.genes.push(Gene::new_constant(2));
    brain.decisions[7].1.genes.push(Gene::new_sense(2));
    assert_eq!(brain.count_genes(), 3);
    assert_eq!(brain.n_genes, 0);
    brain.update_gene_count();
    assert_eq!(brain.n_genes, 3);
}

fn brain_of(values: [i32; 8]) -> BugBrain {
    let mut brain = BugBrain::new();
    for i in 0..8 {
        brain.decisions[i] = (
            Chromosome::with_genes(vec![Gene::new_constant(values[i])], Ethnicity::default()),
            Chromosome::with_genes(vec![Gene::new_constant(values[i])], Ethnicity::default()),
        );
    }
    brain
}

#[test]
fn decision_is_the_sum_of_the_expressed_copies() {
    let mut brain = brain_of([5, 7, 0, 0, 0, 0, 0, 0]);
    let senses = vec![0; 85];
    assert_eq!(brain.evaluate_decision(0, &senses), 10);
    assert_eq!(brain.evaluate_decision(1, &senses), 14);
    assert_eq!(brain.evaluate_decision(8, &senses), 0);
    // Copy B of category 0 switched off: the mean is halved.
    brain.expression = 0xFFFF & !0b10;
    assert_eq!(brain.evaluate_decision(0, &senses), 5);
    brain.expression = 0xFFFF & !0b11;
    assert_eq!(brain.evaluate_decision(0, &senses), 0);
    assert_eq!(brain.evaluate_decision(0, &senses) as f64 / 2.0, 0.0);
}

#[test]
fn highest_score_wins_and_ties_go_to_the_lowest_index() {
    let senses = vec![0; 85];
    assert_eq!(brain_of([1, 2, 9, 4, 5, 6, 7, 8]).choose_action(&senses), 2);
    assert_eq!(brain_of([3, 3, 3, 3, 3, 3, 3, 3]).choose_action(&senses), 0);
    assert_eq!(brain_of([1, 9, 2, 9, 2, 9, 0, 0]).choose_action(&senses), 1);
    assert_eq!(brain_of([-5, -4, -3, -2, -1, -1, -2, -3]).choose_action(&senses), 4);
}

#[test]
fn brain_clone_is_a_deep_copy() {
    let mut brain = brain_of([1, 2, 3, 4, 5, 6, 7, 8]);
    let copy = brain.clone();
    brain.decisions[3].0.genes[0].c1 = 99;
    assert_eq!(copy.decisions[3].0.genes[0].c1, 4);
    assert_eq!(copy.decisions.len(), 8);
    assert_eq!(copy.family.len(), brain.family.len());
}
