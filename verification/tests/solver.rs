use bulls_and_cows::Number;
use bulls_and_cows::bench;
use bulls_and_cows::count_guesses;
use bulls_and_cows::engine::total_rounds;
use bulls_and_cows::generate_number_random;

#[test]
fn round_totals_add_up() {
    assert_eq!(0, total_rounds(&Vec::new()));
    assert_eq!(6, total_rounds(&vec![1, 2, 3]));
    assert_eq!(131070, total_rounds(&vec![65535, 65535]));
}

#[test]
fn own_secret_is_guessed_in_one_round() {
    assert_eq!(1, count_guesses(Number::from("0123")));
}

#[test]
fn a_game_finishes_in_few_rounds() {
    for s in ["9876", "4072", "1504"] {
        let rounds = count_guesses(Number::from(s));
        assert!((2..=12).contains(&rounds));
    }
}

#[test]
fn batch_run_covers_every_secret() {
    let counts = bench();
    assert_eq!(5040, counts.len());
    for c in &counts {
        assert!(*c >= 1);
    }
    let one_round_games = counts.iter().filter(|&&c| c == 1).count();
    assert_eq!(1, one_round_games);
    let total = total_rounds(&counts);
    let avg: f64 = total as f64 / counts.len() as f64;
    assert!(avg.is_finite());
    assert!(avg >= 1.0 && avg <= 10.0);
}

#[test]
fn random_code_avoids_excluded_digits() {
    for _ in 0..20 {
        let n = generate_number_random(vec![0, 1, 2, 3, 4, 5]);
        let (a, b, c, d) = n.to_tuple();
        assert!(Number::is_correct(a, b, c, d));
        for digit in [a, b, c, d] {
            assert!((6..=9).contains(&digit));
        }
    }
}

#[test]
fn random_code_from_small_pool_reuses_excluded_digits() {
    for _ in 0..20 {
        let n = generate_number_random(vec![0, 1, 2, 3, 4, 5, 6, 7]);
        let (a, b, c, d) = n.to_tuple();
        assert!(Number::is_correct(a, b, c, d));
        // the two free digits come first, then two excluded ones
        assert!((8..=9).contains(&a) && (8..=9).contains(&b));
        assert!((0..=7).contains(&c) && (0..=7).contains(&d));
    }
}

#[test]
fn random_code_with_no_exclusions_is_valid() {
    for _ in 0..20 {
        let n = generate_number_random(Vec::new());
        let (a, b, c, d) = n.to_tuple();
        assert!(Number::is_correct(a, b, c, d));
    }
}
