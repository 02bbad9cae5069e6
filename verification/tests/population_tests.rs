use evolve::{Individual, Population, ONE};

fn identity(value: i64) -> Option<i64> {
    Some(value)
}

fn pool_of<F: Fn(i64) -> Option<i64>>(fitness: F, values: &[i64]) -> Population<F> {
    Population {
        fitness,
        individuals: values.iter().map(|&value| Individual { value }).collect(),
        size: values.len(),
    }
}

fn offspring_of(values: &[i64]) -> Vec<Individual> {
    values.iter().map(|&value| Individual { value }).collect()
}

fn genes<F: Fn(i64) -> Option<i64>>(pool: &Population<F>) -> Vec<i64> {
    pool.individuals.iter().map(|i| i.value).collect()
}

#[test]
fn population_new_holds_size_individuals_within_bounds() {
    let pool = Population::new(25, identity, -2 * ONE, 3 * ONE);
    assert_eq!(pool.size, 25);
    assert_eq!(pool.individuals.len(), 25);
    for individual in &pool.individuals {
        assert!(-2 * ONE <= individual.value && individual.value < 3 * ONE);
    }
}

#[test]
fn population_new_of_size_zero_is_empty() {
    let pool = Population::new(0, identity, 5, 5);
    assert_eq!(pool.size, 0);
    assert!(pool.individuals.is_empty());
    assert_eq!(pool.best(), None);
}

#[test]
fn population_new_draws_differ() {
    let pool = Population::new(200, identity, 0, ONE);
    let first = pool.individuals[0].value;
    assert!(pool.individuals.iter().any(|i| i.value != first));
}

#[test]
fn replace_keeps_configured_size() {
    for count in [0usize, 1, 2, 5, 40] {
        let mut pool = pool_of(identity, &[4, 8, 1, 9, 3]);
        let offspring: Vec<Individual> =
            (0..count).map(|k| Individual { value: k as i64 * 3 }).collect();
        pool.replace(offspring);
        assert_eq!(pool.individuals.len(), 5);
        assert_eq!(pool.size, 5);
    }
}

#[test]
fn replace_without_offspring_sorts_pool() {
    let mut pool = pool_of(identity, &[4, 8, 1, 9, 3]);
    pool.replace(Vec::new());
    assert_eq!(genes(&pool), vec![9, 8, 4, 3, 1]);
}

#[test]
fn replace_keeps_fittest_of_pool_and_offspring() {
    let mut pool = pool_of(identity, &[4, 8, 1, 9, 3]);
    pool.replace(offspring_of(&[7, 0, 10]));
    assert_eq!(genes(&pool), vec![10, 9, 8, 7, 4]);
}

#[test]
fn replace_discards_unfit_offspring() {
    let mut pool = pool_of(identity, &[9, 8, 7]);
    pool.replace(offspring_of(&[1, 2, 3]));
    assert_eq!(genes(&pool), vec![9, 8, 7]);
}

#[test]
fn replace_can_replace_whole_pool() {
    let mut pool = pool_of(identity, &[1, 2, 3]);
    pool.replace(offspring_of(&[10, 30, 20, 40]));
    assert_eq!(genes(&pool), vec![40, 30, 20]);
}

#[test]
fn replace_ranks_by_fitness_not_by_gene() {
    let mut pool = pool_of(|value: i64| Some(-(value - 5) * (value - 5)), &[0, 9, 4]);
    pool.replace(offspring_of(&[5, 7]));
    assert_eq!(genes(&pool), vec![5, 4, 7]);
}

#[test]
fn replace_prefers_pool_members_among_equally_fit() {
    let mut pool = pool_of(|value: i64| Some(value / 10), &[21, 35, 22]);
    pool.replace(offspring_of(&[23, 36]));
    assert_eq!(genes(&pool), vec![35, 36, 21]);
}

#[test]
fn replace_orders_by_descending_fitness() {
    let fitness = |value: i64| Some((value % 7) * (value % 5));
    let mut pool = pool_of(fitness, &[12, 5, 33, 8, 19, 27, 2, 40]);
    pool.replace(offspring_of(&[3, 14, 15, 9, 26]));
    for pair in pool.individuals.windows(2) {
        assert!(fitness(pair[0].value) >= fitness(pair[1].value));
    }
}

#[test]
fn replace_with_incomparable_fitness_completes_at_size() {
    let fitness = |value: i64| if value % 2 == 0 { None } else { Some(value) };
    let mut pool = pool_of(fitness, &[1, 2, 3, 4]);
    pool.replace(offspring_of(&[5, 6, 7]));
    assert_eq!(pool.individuals.len(), 4);
    for pair in pool.individuals.windows(2) {
        let (x, y) = (fitness(pair[0].value), fitness(pair[1].value));
        assert!(x.is_none() || y.is_none() || x >= y);
    }
}

#[test]
fn replace_treats_incomparable_as_not_greater() {
    let fitness = |value: i64| if value < 0 { None } else { Some(value) };
    let mut pool = pool_of(fitness, &[3, -1, 5]);
    pool.replace(offspring_of(&[4]));
    assert_eq!(genes(&pool), vec![3, -1, 5]);
    let mut pool = pool_of(fitness, &[3, 5, -1]);
    pool.replace(offspring_of(&[4, -2, 9]));
    assert_eq!(genes(&pool), vec![5, 3, -1]);
}

#[test]
fn replace_with_only_incomparable_fitness_keeps_first_members() {
    let mut pool = pool_of(|_value: i64| None, &[3, 1, 2]);
    pool.replace(offspring_of(&[9, 8]));
    assert_eq!(genes(&pool), vec![3, 1, 2]);
}

#[test]
fn replace_on_empty_pool_of_size_zero_stays_empty() {
    let mut pool = pool_of(identity, &[]);
    pool.replace(offspring_of(&[1, 2]));
    assert!(pool.individuals.is_empty());
}

#[test]
fn replace_sorts_fresh_random_pool() {
    let mut pool = Population::new(50, identity, 0, 4 * ONE);
    let mut expected: Vec<i64> = pool.individuals.iter().map(|i| i.value).collect();
    expected.sort();
    expected.reverse();
    pool.replace(Vec::new());
    assert_eq!(genes(&pool), expected);
}

#[test]
fn replace_asks_fitness_once_per_individual() {
    let calls = std::cell::Cell::new(0usize);
    let fitness = |value: i64| {
        calls.set(calls.get() + 1);
        Some(value)
    };
    let mut pool = pool_of(&fitness, &[4, 8, 1, 9, 3]);
    pool.replace(offspring_of(&[7, 0, 10]));
    assert_eq!(calls.get(), 8);
}

#[test]
fn best_is_first_member() {
    let mut pool = pool_of(identity, &[4, 8, 1]);
    assert_eq!(pool.best(), Some(Individual { value: 4 }));
    pool.replace(offspring_of(&[6]));
    assert_eq!(pool.best(), Some(Individual { value: 8 }));
}
