use bugs::gene::{Chromosome, Ethnicity, Gene, GeneType};

#[test]
fn test_constant_gene() {
    let gene = Gene::new_constant(42);
    let senses = vec![0; 10];
    let gene_values = vec![];
    assert_eq!(gene.evaluate(&senses, &gene_values) as f64, 42.0);
}

#[test]
fn test_sense_gene() {
    let gene = Gene::new_sense(2);
    let senses = vec![10, 20, 30, 40];
    let gene_values = vec![];
    assert_eq!(gene.evaluate(&senses, &gene_values) as f64, 30.0);
}

#[test]
fn test_limit_gene() {
    let gene = Gene::new_limit(0, 10, 50);
    let gene_values = vec![];

    let senses = vec![5];
    assert_eq!(gene.evaluate(&senses, &gene_values) as f64, 10.0); // clamped to min

    let senses = vec![100];
    assert_eq!(gene.evaluate(&senses, &gene_values) as f64, 50.0); // clamped to max

    let senses = vec![30];
    assert_eq!(gene.evaluate(&senses, &gene_values) as f64, 30.0); // within range
}

#[test]
fn constant_gene_ignores_the_senses() {
    let gene = Gene::new_constant(42);
    assert_eq!(gene.evaluate(&[], &[]), 42);
    assert_eq!(gene.evaluate(&[7, 8, 9], &[]), 42);
    assert_eq!(gene.evaluate(&[i32::MIN; 4], &[1, 2, 3]), 42);
}

#[test]
fn compare_gene_yields_one_above_the_threshold() {
    let gene = Gene::new_compare(1, 10);
    assert_eq!(gene.gene_type, GeneType::Compare);
    assert_eq!(gene.evaluate(&[0, 11], &[]), 1);
    assert_eq!(gene.evaluate(&[0, 10], &[]), 0);
    assert_eq!(gene.evaluate(&[0, -3], &[]), 0);
}

#[test]
fn match_gene_yields_the_raw_observation() {
    let gene = Gene::new_match(1);
    assert_eq!(gene.evaluate(&[5, 77], &[]), 77);
}

#[test]
fn a_sense_beyond_the_vector_reads_zero() {
    assert_eq!(Gene::new_sense(4).evaluate(&[1, 2, 3, 4], &[]), 0);
    assert_eq!(Gene::new_limit(4, 10, 50).evaluate(&[1, 2, 3, 4], &[]), 0);
    assert_eq!(Gene::new_compare(4, -5).evaluate(&[1, 2, 3, 4], &[]), 0);
    assert_eq!(Gene::new_match(4).evaluate(&[1, 2, 3, 4], &[]), 0);
}

#[test]
fn links_multiply_and_add() {
    let mut gene = Gene::new_constant(6);
    gene.prod_index = Some(0);
    gene.sum_index = Some(1);
    assert_eq!(gene.evaluate(&[], &[7, 100]), 142);
    gene.sum_index = None;
    assert_eq!(gene.evaluate(&[], &[7, 100]), 42);
    gene.prod_index = None;
    gene.sum_index = Some(1);
    assert_eq!(gene.evaluate(&[], &[7, 100]), 106);
}

#[test]
fn links_are_checked_against_the_gene_list() {
    let mut first = Gene::new_constant(6);
    first.prod_index = Some(1);
    let mut chromosome =
        Chromosome::with_genes(vec![first, Gene::new_constant(2)], Ethnicity::default());
    assert!(chromosome.is_well_formed());
    assert_eq!(chromosome.evaluate(&[]), 2);
    chromosome.genes[1].sum_index = Some(2);
    assert!(!chromosome.is_well_formed());
    chromosome.genes[1].sum_index = Some(1);
    assert!(chromosome.is_well_formed());
    chromosome.genes.pop();
    assert!(!chromosome.is_well_formed());
    assert!(Chromosome::new().is_well_formed());
}

#[test]
fn gene_values_saturate() {
    let mut gene = Gene::new_constant(i32::MAX);
    gene.prod_index = Some(0);
    assert_eq!(gene.evaluate(&[], &[i64::MAX]), i64::MAX);
    assert_eq!(gene.evaluate(&[], &[i64::MIN]), i64::MIN);
    let mut small = Gene::new_constant(1);
    small.prod_index = Some(0);
    small.sum_index = Some(0);
    assert_eq!(small.evaluate(&[], &[i64::MAX]), i64::MAX);
}

#[test]
fn chromosome_output_is_the_last_gene() {
    assert_eq!(Chromosome::new().evaluate(&[1, 2, 3]), 0);

    let mut second = Gene::new_sense(1);
    second.prod_index = Some(0);
    let chromosome = Chromosome::with_genes(
        vec![Gene::new_constant(3), second],
        Ethnicity::new(1, 2, 3, 4),
    );
    assert_eq!(chromosome.evaluate(&[0, 5]), 15);
    assert_eq!(chromosome.ethnicity, Ethnicity::new(1, 2, 3, 4));
}

#[test]
fn forward_and_self_links_resolve_to_zero() {
    let mut first = Gene::new_constant(3);
    first.sum_index = Some(1);
    let mut last = Gene::new_constant(4);
    last.prod_index = Some(1);
    // The first gene adds a gene that has no value yet; the last one
    // multiplies by itself.
    let chromosome = Chromosome::with_genes(vec![first, last], Ethnicity::default());
    assert_eq!(chromosome.evaluate(&[]), 0);

    let mut reader = Gene::new_constant(1);
    reader.prod_index = Some(0);
    let chain = Chromosome::with_genes(vec![first, reader], Ethnicity::default());
    assert_eq!(chain.evaluate(&[]), 3);
}

#[test]
fn limit_with_crossed_bounds_prefers_the_lower_bound() {
    let gene = Gene::new_limit(0, 50, 10);
    assert_eq!(gene.evaluate(&[5], &[]), 50);
    assert_eq!(gene.evaluate(&[60], &[]), 10);
}

#[test]
fn blend_takes_the_larger_uid_and_the_mean_colour() {
    let a = Ethnicity::new(3, 10, 255, 0);
    let b = Ethnicity::new(9, 21, 255, 1);
    assert_eq!(a.blend(&b), Ethnicity::new(9, 15, 255, 0));
    assert_eq!(b.blend(&a), Ethnicity::new(9, 15, 255, 0));
    assert_eq!(Ethnicity::default(), Ethnicity::new(0, 0, 0, 0));
}

#[test]
fn chromosome_clone_copies_the_genes() {
    let mut chromosome = Chromosome::with_genes(vec![Gene::new_constant(3)], Ethnicity::default());
    let copy = chromosome.clone();
    chromosome.genes[0].c1 = 4;
    assert_eq!(copy.genes[0].c1, 3);
    assert_eq!(Chromosome::default().genes.len(), 0);
}
