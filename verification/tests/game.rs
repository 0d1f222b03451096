use bulls_and_cows::BullsAndCows;
use bulls_and_cows::ExcludeAll;
use bulls_and_cows::Guess;
use bulls_and_cows::Number;
use bulls_and_cows::filter_candidates;
use bulls_and_cows::generate_number_to_guess;
use bulls_and_cows::generate_universe;
use bulls_and_cows::try_exclude;

#[test]
fn exclude() {
    assert_eq!(
        vec![1, 4, 5, 7, 8],
        vec![0, 1, 2, 3, 4, 5, 6, 7, 8, 9].exclude(vec![0, 2, 3, 6, 9])
    );
}

#[test]
fn exclude_absent_item_fails() {
    assert_eq!(None, try_exclude(vec![0, 1, 2], vec![5]));
    assert_eq!(None, try_exclude(vec![0, 1, 2], vec![1, 1]));
    let kept = try_exclude(vec![0, 1, 2], vec![1]).unwrap();
    assert_eq!(vec![0, 2], kept);
}

#[test]
fn number_construction() {
    let n = Number::new(0, 1, 2, 3);
    assert_eq!((0, 1, 2, 3), n.to_tuple());
    assert!(Number::is_correct(9, 8, 7, 6));
    assert!(!Number::is_correct(1, 1, 2, 3));
    assert!(!Number::is_correct(10, 1, 2, 3));
    assert!(!Number::is_correct(-1, 1, 2, 3));
}

#[test]
fn number_parsing_and_display() {
    let n = Number::from("0123");
    assert_eq!((0, 1, 2, 3), n.to_tuple());
    assert_eq!("0123", Number::new(0, 1, 2, 3).to_string());
    assert_eq!("9876", Number::new(9, 8, 7, 6).to_string());
    assert_eq!("4072", Number::from("4072").to_string());
}

#[test]
fn feedback_exact_values() {
    let x = Number::from("0123");
    assert_eq!(BullsAndCows::new(2, 0), BullsAndCows::from(x, Number::from("0145")));
    assert_eq!(BullsAndCows::new(0, 4), BullsAndCows::from(x, Number::from("1032")));
    assert_eq!(BullsAndCows::new(2, 2), BullsAndCows::from(x, Number::from("0132")));
    assert_eq!(BullsAndCows::new(0, 0), BullsAndCows::from(x, Number::from("4567")));
    assert_eq!(BullsAndCows::new(4, 0), BullsAndCows::from(x, x));
}

#[test]
fn feedback_validation() {
    assert!(BullsAndCows::is_correct(4, 0));
    assert!(BullsAndCows::is_correct(0, 0));
    assert!(!BullsAndCows::is_correct(3, 2));
    assert!(!BullsAndCows::is_correct(5, 0));
    assert!(!BullsAndCows::is_correct(-1, 0));
    let fb = BullsAndCows::new(1, 3);
    assert_eq!(1, fb.get_bulls());
    assert_eq!(4, fb.sum());
}

#[test]
fn universe_is_complete_and_duplicate_free() {
    let universe = generate_universe();
    assert_eq!(5040, universe.len());
    let mut tuples: Vec<(i8, i8, i8, i8)> = Vec::new();
    for n in &universe {
        let (a, b, c, d) = n.to_tuple();
        assert!(Number::is_correct(a, b, c, d));
        tuples.push((a, b, c, d));
    }
    tuples.sort();
    for w in tuples.windows(2) {
        assert_ne!(w[0], w[1]);
    }
}

#[test]
fn feedback_range_over_universe() {
    let universe = generate_universe();
    let x = Number::from("0123");
    for y in &universe {
        let fb = BullsAndCows::from(x, *y);
        assert!((0..=4).contains(&fb.get_bulls()));
        assert!((0..=4).contains(&fb.sum()));
    }
}

#[test]
fn feedback_self_is_four_bulls() {
    let universe = generate_universe();
    for x in universe.iter().step_by(101) {
        assert_eq!(BullsAndCows::new(4, 0), BullsAndCows::from(*x, *x));
    }
}

#[test]
fn feedback_is_symmetric() {
    let universe = generate_universe();
    let probes = [
        Number::from("0123"),
        Number::from("9876"),
        Number::from("4072"),
    ];
    for x in universe.iter().step_by(53) {
        for y in &probes {
            assert_eq!(BullsAndCows::from(*x, *y), BullsAndCows::from(*y, *x));
        }
    }
}

#[test]
fn candidates_shrink_as_history_grows() {
    let universe = generate_universe();
    let secret = Number::from("4072");
    let g1 = Number::from("0123");
    let mut history = vec![Guess::new(g1, BullsAndCows::from(g1, secret))];
    let before = filter_candidates(&history, &universe);
    let g2 = Number::from("4567");
    history.push(Guess::new(g2, BullsAndCows::from(g2, secret)));
    let after = filter_candidates(&history, &universe);
    assert!(after.len() <= before.len());
    for c in &after {
        assert!(before.contains(c));
    }
}

#[test]
fn secret_is_never_filtered_out() {
    let universe = generate_universe();
    let secret = Number::from("3907");
    let mut history: Vec<Guess> = Vec::new();
    for g in ["0123", "4567", "8901", "2345"] {
        let guess = Number::from(g);
        history.push(Guess::new(guess, BullsAndCows::from(guess, secret)));
        let candidates = filter_candidates(&history, &universe);
        assert!(candidates.contains(&secret));
    }
}

#[test]
fn opening_guess_is_fixed() {
    let universe = generate_universe();
    let empty: Vec<Guess> = Vec::new();
    assert_eq!(Some(Number::from("0123")), generate_number_to_guess(&empty, &universe));
}

#[test]
fn inconsistent_history_yields_no_guess() {
    let universe = generate_universe();
    let history = vec![
        Guess::new(Number::from("0123"), BullsAndCows::new(4, 0)),
        Guess::new(Number::from("4567"), BullsAndCows::new(4, 0)),
    ];
    assert_eq!(None, generate_number_to_guess(&history, &universe));
}

#[test]
fn next_guess_is_consistent_with_history() {
    let universe = generate_universe();
    let secret = Number::from("5298");
    let g1 = Number::from("0123");
    let history = vec![Guess::new(g1, BullsAndCows::from(g1, secret))];
    let next = generate_number_to_guess(&history, &universe).unwrap();
    for entry in &history {
        assert_eq!(
            entry.get_bulls_and_cows(),
            BullsAndCows::from(next, entry.get_number())
        );
    }
}
