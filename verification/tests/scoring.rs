use hypo::{guess_count, guess_count_correlation, guess_fitness};

fn below(h: &u32, i: usize) -> bool {
    (i as u32) <= *h
}

#[test]
fn guess_count_counts_true_predictions() {
    let hypos: Vec<u32> = vec![0, 1, 2, 3, 4, 5, 6, 7, 8, 9];
    assert_eq!(guess_count(0, &hypos, below), 10);
    assert_eq!(guess_count(3, &hypos, below), 7);
    assert_eq!(guess_count(9, &hypos, below), 1);
    assert_eq!(guess_count(10, &hypos, below), 0);
}

#[test]
fn guess_count_of_empty_population_is_zero() {
    let hypos: Vec<u32> = Vec::new();
    assert_eq!(guess_count(0, &hypos, below), 0);
    assert_eq!(guess_count(7, &hypos, |_, _| true), 0);
}

#[test]
fn guess_count_counts_repeated_hypotheses_each_time() {
    let hypos: Vec<u32> = vec![5, 5, 5, 1];
    assert_eq!(guess_count(3, &hypos, below), 3);
}

#[test]
fn guess_count_accepts_a_capturing_closure() {
    let table = vec![[true, false], [true, true], [false, false]];
    let hypos: Vec<usize> = vec![0, 1, 2];
    assert_eq!(guess_count(0, &hypos, |h, i| table[*h][i]), 2);
    assert_eq!(guess_count(1, &hypos, |h, i| table[*h][i]), 1);
}

#[test]
fn correlation_counts_equal_predictions() {
    let hypos: Vec<u32> = vec![0, 1, 2, 3, 4, 5, 6, 7, 8, 9];
    // Experiments 2 and 5 differ exactly on the thresholds 2, 3 and 4.
    assert_eq!(guess_count_correlation(2, 5, &hypos, below), 7);
    assert_eq!(guess_count_correlation(0, 10, &hypos, below), 0);
}

#[test]
fn correlation_is_symmetric() {
    let hypos: Vec<u32> = vec![3, 1, 4, 1, 5, 9, 2, 6];
    for i in 0..10 {
        for j in 0..10 {
            assert_eq!(
                guess_count_correlation(i, j, &hypos, below),
                guess_count_correlation(j, i, &hypos, below)
            );
        }
    }
}

#[test]
fn correlation_with_itself_is_the_population_size() {
    let hypos: Vec<u32> = vec![3, 1, 4, 1, 5];
    assert_eq!(guess_count_correlation(2, 2, &hypos, below), 5);
    let none: Vec<u32> = Vec::new();
    assert_eq!(guess_count_correlation(0, 1, &none, below), 0);
}

#[test]
fn fitness_is_the_negated_square_of_the_distance() {
    let hypos: Vec<u32> = vec![0, 1, 2, 3];
    // count 4, half 2
    assert_eq!(guess_fitness(0, &hypos, below), -4);
    // count 3, half 2
    assert_eq!(guess_fitness(1, &hypos, below), -1);
    // count 2, half 2
    assert_eq!(guess_fitness(2, &hypos, below), 0);
    // count 1, half 2
    assert_eq!(guess_fitness(3, &hypos, below), -1);
    // count 0, half 2
    assert_eq!(guess_fitness(4, &hypos, below), -4);
}

#[test]
fn fitness_halves_an_odd_population_rounding_down() {
    let hypos: Vec<u32> = vec![0, 1, 2, 3, 4];
    // half is 2: a count of 2 is optimal, a count of 3 is not.
    assert_eq!(guess_fitness(3, &hypos, below), 0);
    assert_eq!(guess_fitness(2, &hypos, below), -1);
    assert_eq!(guess_fitness(0, &hypos, below), -9);
}

#[test]
fn fitness_of_empty_population_is_zero() {
    let hypos: Vec<u32> = Vec::new();
    assert_eq!(guess_fitness(0, &hypos, below), 0);
}

#[test]
fn fitness_is_never_positive() {
    let hypos: Vec<u32> = vec![3, 1, 4, 1, 5, 9, 2, 6];
    for i in 0..12 {
        assert!(guess_fitness(i, &hypos, below) <= 0);
    }
}

#[test]
fn fitness_ranks_experiments_as_the_distance_does() {
    let hypos: Vec<u32> = vec![3, 1, 4, 1, 5, 9, 2, 6];
    let half = hypos.len() / 2;
    let dist = |i: usize| {
        let count = guess_count(i, &hypos, below);
        if count > half { count - half } else { half - count }
    };
    for i in 0..12 {
        for j in 0..12 {
            let fitter = guess_fitness(i, &hypos, below) >= guess_fitness(j, &hypos, below);
            assert_eq!(fitter, dist(i) <= dist(j));
        }
    }
}
