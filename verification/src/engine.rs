//! The codebreaking engine: candidate filtering and guess selection.
//!
//! Given the history of past guesses and their feedback, the engine keeps
//! the set of codes still consistent with every recorded feedback and
//! picks the next guess from it; an empty set signals an inconsistent
//! history instead of a guess.

use vstd::prelude::*;
use rand::Rng;
use crate::code::BullsAndCows;
use crate::code::Guess;
use crate::code::Number;
use crate::code::bulls_of;
use crate::code::feedback;
use crate::code::lemma_feedback_symmetric;
use crate::code::valid_digits;
use crate::universe::generate_universe;
use crate::universe::is_universe;

verus! {

/// A candidate code would have produced exactly this entry's feedback.
pub open spec fn consistent_with(c: Number, g: Guess) -> bool {
    g.feedback_spec()@ == feedback(c, g.number_spec())
}

/// A candidate code is consistent with every entry of the history.
pub open spec fn consistent_with_history(c: Number, h: Seq<Guess>) -> bool {
    forall|k: int| 0 <= k < h.len() ==> consistent_with(c, #[trigger] h[k])
}

/// The candidates of `universe` still consistent with the history.
pub open spec fn candidate_set(universe: Seq<Number>, h: Seq<Guess>) -> Set<Number> {
    universe.to_set().filter(|c: Number| consistent_with_history(c, h))
}

/// Law: appending a history entry only shrinks the candidate set.
pub proof fn lemma_candidates_shrink(universe: Seq<Number>, h: Seq<Guess>, e: Guess)
    ensures
        candidate_set(universe, h.push(e)).subset_of(candidate_set(universe, h)),
{
    assert forall|c: Number| candidate_set(universe, h.push(e)).contains(c) implies candidate_set(
        universe,
        h,
    ).contains(c) by {
        assert(consistent_with_history(c, h.push(e)));
        assert forall|k: int| 0 <= k < h.len() implies consistent_with(c, #[trigger] h[k]) by {
            assert(h.push(e)[k] == h[k]);
            assert(consistent_with(c, h.push(e)[k]));
        }
    }
}

/// Law: a secret in the universe is never filtered out by feedback that
/// was computed against it.
pub proof fn lemma_secret_retained(secret: Number, universe: Seq<Number>, h: Seq<Guess>)
    requires
        secret.wf(),
        universe.contains(secret),
        forall|k: int| 0 <= k < h.len() ==> (#[trigger] h[k]).number_spec().wf(),
        forall|k: int|
            0 <= k < h.len() ==> (#[trigger] h[k]).feedback_spec()@ == feedback(
                h[k].number_spec(),
                secret,
            ),
    ensures
        candidate_set(universe, h).contains(secret),
{
    assert forall|k: int| 0 <= k < h.len() implies consistent_with(secret, #[trigger] h[k]) by {
        lemma_feedback_symmetric(secret, h[k].number_spec());
    }
    assert(consistent_with_history(secret, h));
    assert(universe.to_set().contains(secret));
}

/// Keeping a sequence's element while pushing another preserves membership.
proof fn lemma_push_keeps_contains<A>(s: Seq<A>, x: A, y: A)
    requires
        s.contains(y),
    ensures
        s.push(x).contains(y),
{
    let i = choose|i: int| 0 <= i < s.len() && s[i] == y;
    assert(s.push(x)[i] == y);
}

/// Decide whether a candidate would have produced every feedback of the
/// recorded history.
fn is_consistent(candidate: Number, guesses: &Vec<Guess>) -> (r: bool)
    ensures
        r == consistent_with_history(candidate, guesses@),
{
    let mut k: usize = 0;
    while k < guesses.len()
        invariant
            k <= guesses@.len(),
            forall|j: int| 0 <= j < k ==> consistent_with(candidate, #[trigger] guesses@[j]),
        decreases guesses@.len() - k,
    {
        let g = guesses[k];
        let expected = g.get_bulls_and_cows();
        let actual = BullsAndCows::from(candidate, g.get_number());
        proof {
            BullsAndCows::lemma_eq_by_view(actual, expected);
        }
        if !(expected == actual) {
            assert(!consistent_with(candidate, guesses@[k as int]));
            return false;
        }
        assert(consistent_with(candidate, guesses@[k as int]));
        k += 1;
    }
    true
}

/// Consistency with a fixed history, as a predicate on codes.
pub open spec fn history_pred(h: Seq<Guess>) -> spec_fn(Number) -> bool {
    |c: Number| consistent_with_history(c, h)
}

/// Collect the candidates of `universe` that are consistent with the
/// whole history, in the universe's order.
pub fn filter_candidates(guesses: &Vec<Guess>, universe: &Vec<Number>) -> (r: Vec<Number>)
    ensures
        r@ == universe@.filter(history_pred(guesses@)),
        forall|i: int|
            0 <= i < r@.len() ==> universe@.contains(#[trigger] r@[i]) && consistent_with_history(
                r@[i],
                guesses@,
            ),
        forall|i: int|
            0 <= i < universe@.len() && consistent_with_history(
                #[trigger] universe@[i],
                guesses@,
            ) ==> r@.contains(universe@[i]),
{
    let mut r: Vec<Number> = Vec::new();
    let mut i: usize = 0;
    proof {
        reveal(Seq::filter);
    }
    while i < universe.len()
        invariant
            i <= universe@.len(),
            r@ == universe@.subrange(0, i as int).filter(history_pred(guesses@)),
            forall|j: int|
                0 <= j < r@.len() ==> universe@.contains(#[trigger] r@[j])
                    && consistent_with_history(r@[j], guesses@),
            forall|j: int|
                0 <= j < i && consistent_with_history(#[trigger] universe@[j], guesses@)
                    ==> r@.contains(universe@[j]),
        decreases universe@.len() - i,
    {
        let cand = universe[i];
        let ghost prev = r@;
        if is_consistent(cand, guesses) {
            r.push(cand);
            proof {
                assert(universe@[i as int] == cand);
                assert(universe@.contains(cand));
                assert(r@[prev.len() as int] == cand);
                assert forall|j: int|
                    0 <= j < i + 1 && consistent_with_history(
                        #[trigger] universe@[j],
                        guesses@,
                    ) implies r@.contains(universe@[j]) by {
                    if j < i {
                        lemma_push_keeps_contains(prev, cand, universe@[j]);
                    } else {
                        assert(r@.contains(cand));
                    }
                }
            }
        }
        proof {
            reveal(Seq::filter);
            let pred = history_pred(guesses@);
            let step = universe@.subrange(0, i + 1);
            assert(step.drop_last() =~= universe@.subrange(0, i as int));
            assert(step.last() == universe@[i as int]);
            assert(r@ =~= step.filter(pred));
        }
        i += 1;
    }
    proof {
        assert(universe@.subrange(0, universe@.len() as int) =~= universe@);
    }
    r
}

/// Relies on `rand::thread_rng` and `rand::Rng::gen_range`: a sample from
/// `0..n` lies in that range, and the call panics only on an empty range,
/// which the precondition rules out.
#[verifier::external_body]
fn random_index(n: usize) -> (r: usize)
    requires
        0 < n,
    ensures
        r < n,
{
    rand::thread_rng().gen_range(0..n)
}

/// Pick the next guess among the candidates still consistent with the
/// history, uniformly at random; report `None` when no code is.
pub fn generate_number_smart(guesses: &Vec<Guess>, universe: &Vec<Number>) -> (r: Option<Number>)
    ensures
        r matches Some(n) ==> universe@.contains(n) && consistent_with_history(n, guesses@),
        (r is None) <==> (forall|i: int|
            0 <= i < universe@.len() ==> !consistent_with_history(
                #[trigger] universe@[i],
                guesses@,
            )),
{
    let candidates = filter_candidates(guesses, universe);
    if candidates.len() != 0 {
        let idx = random_index(candidates.len());
        let chosen = candidates[idx];
        proof {
            let w = choose|w: int| 0 <= w < universe@.len() && universe@[w] == chosen;
            assert(consistent_with_history(universe@[w], guesses@));
        }
        Some(chosen)
    } else {
        assert forall|i: int|
            0 <= i < universe@.len() implies !consistent_with_history(
            #[trigger] universe@[i],
            guesses@,
        ) by {
            if consistent_with_history(universe@[i], guesses@) {
                assert(candidates@.contains(universe@[i]));
            }
        }
        None
    }
}

/// The next code to propose: the fixed opener `0123` on an empty history,
/// afterwards a random consistent candidate; `None` reports an
/// inconsistent history.
pub fn generate_number_to_guess(guesses: &Vec<Guess>, universe: &Vec<Number>) -> (r: Option<
    Number,
>)
    ensures
        guesses@.len() == 0 ==> (r matches Some(n) && n@ == (0int, 1int, 2int, 3int)),
        guesses@.len() > 0 ==> (r matches Some(n) ==> universe@.contains(n)
            && consistent_with_history(n, guesses@)),
        guesses@.len() > 0 ==> ((r is None) <==> (forall|i: int|
            0 <= i < universe@.len() ==> !consistent_with_history(
                #[trigger] universe@[i],
                guesses@,
            ))),
{
    if guesses.len() == 0 {
        Some(Number::new(0, 1, 2, 3))
    } else {
        generate_number_smart(guesses, universe)
    }
}

/// Guesses that each fit all earlier entries, none of which scored four
/// bulls, are pairwise distinct: a repeated code would have had to score
/// four bulls against itself.
proof fn lemma_history_guesses_distinct(h: Seq<Guess>)
    requires
        forall|j: int, k: int|
            0 <= k < j < h.len() ==> #[trigger] consistent_with(h[j].number_spec(), h[k]),
        forall|k: int| 0 <= k < h.len() ==> (#[trigger] h[k]).feedback_spec()@.0 != 4,
    ensures
        forall|j: int, k: int|
            0 <= k < j < h.len() ==> h[j].number_spec() != h[k].number_spec(),
{
    assert forall|j: int, k: int| 0 <= k < j < h.len() implies h[j].number_spec()
        != h[k].number_spec() by {
        if h[j].number_spec() == h[k].number_spec() {
            assert(consistent_with(h[j].number_spec(), h[k]));
            assert(bulls_of(h[k].number_spec(), h[k].number_spec()) == 4);
            assert(false);
        }
    }
}

/// A history of pairwise-distinct guesses drawn from a duplicate-free
/// universe, none of them a given member of it, leaves that member over:
/// the history is strictly shorter than the universe.
proof fn lemma_bounded_history(h: Seq<Guess>, u: Seq<Number>, s: Number)
    requires
        u.no_duplicates(),
        u.contains(s),
        forall|k: int| 0 <= k < h.len() ==> u.contains((#[trigger] h[k]).number_spec()),
        forall|k: int| 0 <= k < h.len() ==> (#[trigger] h[k]).number_spec() != s,
        forall|j: int, k: int|
            0 <= k < j < h.len() ==> h[j].number_spec() != h[k].number_spec(),
    ensures
        h.len() < u.len(),
{
    broadcast use vstd::seq_lib::seq_to_set_is_finite;

    let nums = Seq::new(h.len(), |k: int| h[k].number_spec());
    assert(nums.no_duplicates());
    nums.unique_seq_to_set();
    u.unique_seq_to_set();
    let left_over = u.to_set().remove(s);
    assert forall|x: Number| nums.to_set().contains(x) implies left_over.contains(x) by {
        let k = choose|k: int| 0 <= k < nums.len() && nums[k] == x;
        assert(u.contains(h[k].number_spec()));
        assert(x != s);
    }
    assert(u.to_set().contains(s));
    vstd::set::axiom_set_remove_len(u.to_set(), s);
    vstd::set::axiom_set_remove_finite(u.to_set(), s);
    vstd::set_lib::lemma_len_subset(nums.to_set(), left_over);
}

/// Play one whole game against a known secret; the result is the number
/// of rounds used, the last round being the winning guess or the round
/// in which no candidate was left.  The secret itself never enters the
/// recorded history, so at most 5039 losing rounds precede the win.
#[verifier::rlimit(50)]
fn run_game(secret: Number, universe: &Vec<Number>) -> (r: u16)
    requires
        is_universe(universe@),
    ensures
        1 <= r <= 5040,
        (r == 1) <==> (secret@ == (0int, 1int, 2int, 3int)),
{
    proof {
        use_type_invariant(&secret);
    }
    let mut guesses: Vec<Guess> = Vec::new();
    let mut n: u16 = 0;
    loop
        invariant
            is_universe(universe@),
            secret.wf(),
            n == guesses@.len(),
            guesses@.len() <= 5039,
            forall|k: int|
                0 <= k < guesses@.len() ==> universe@.contains(
                    (#[trigger] guesses@[k]).number_spec(),
                ),
            forall|j: int, k: int|
                0 <= k < j < guesses@.len() ==> #[trigger] consistent_with(
                    guesses@[j].number_spec(),
                    guesses@[k],
                ),
            forall|k: int| 0 <= k < guesses@.len() ==> (#[trigger] guesses@[k]).feedback_spec()@.0
                != 4,
            forall|k: int|
                0 <= k < guesses@.len() ==> consistent_with(secret, #[trigger] guesses@[k]),
            forall|k: int| 0 <= k < guesses@.len() ==> (#[trigger] guesses@[k]).number_spec()
                != secret,
            guesses@.len() > 0 ==> guesses@[0].number_spec()@ == (0int, 1int, 2int, 3int),
        decreases 5039 - guesses@.len(),
    {
        proof {
            assert(n < 5040);
        }
        n += 1;
        let number_to_guess = match generate_number_to_guess(&guesses, universe) {
            Some(number_to_guess) => number_to_guess,
            None => {
                proof {
                    // The secret itself is consistent with the whole
                    // history, so the candidate set cannot be empty.
                    assert(guesses@.len() > 0);
                    assert(universe@.contains(secret));
                    let w = choose|w: int|
                        0 <= w < universe@.len() && universe@[w] == secret;
                    assert(universe@[w] == secret);
                    assert(consistent_with_history(secret, guesses@));
                    assert(!consistent_with_history(universe@[w], guesses@));
                    assert(false);
                }
                return n;
            },
        };
        proof {
            use_type_invariant(&number_to_guess);
            if guesses@.len() == 0 {
                assert(valid_digits(0, 1, 2, 3));
                assert(number_to_guess.wf());
                assert(universe@.contains(number_to_guess));
            }
        }
        let bulls_and_cows = BullsAndCows::from(number_to_guess, secret);
        if bulls_and_cows.get_bulls() == 4 {
            proof {
                // four bulls identify the secret, so the winning guess
                // is the secret itself
                crate::code::lemma_four_bulls_equal(number_to_guess, secret);
                if guesses@.len() == 0 {
                    // round one plays the fixed opener, so an immediate
                    // win means the secret is the opener
                    assert(secret@ == (0int, 1int, 2int, 3int));
                } else {
                    // with the secret `0123` the fixed opener would have
                    // won already, so no entry could have been recorded
                    if secret@ == (0int, 1int, 2int, 3int) {
                        Number::lemma_eq_by_view(secret, guesses@[0].number_spec());
                        assert(consistent_with(secret, guesses@[0]));
                        assert(false);
                    }
                }
            }
            return n;
        }
        let g = Guess::new(number_to_guess, bulls_and_cows);
        let ghost prev = guesses@;
        guesses.push(g);
        proof {
            assert forall|k: int|
                0 <= k < prev.len() implies #[trigger] consistent_with(
                g.number_spec(),
                prev[k],
            ) by {}
            lemma_feedback_symmetric(secret, number_to_guess);
            assert(consistent_with(secret, g));
            // a losing guess is not the secret: its bulls fall short of four
            assert(number_to_guess != secret) by {
                if number_to_guess == secret {
                    assert(bulls_of(number_to_guess, secret) == 4);
                }
            }
            lemma_history_guesses_distinct(guesses@);
            lemma_bounded_history(guesses@, universe@, secret);
        }
    }
}

/// The number of rounds the engine needs to identify the given secret.
/// One round suffices exactly when the secret is the fixed opener.
pub fn count_guesses(number: Number) -> (r: u16)
    ensures
        1 <= r <= 5040,
        (r == 1) <==> (number@ == (0int, 1int, 2int, 3int)),
{
    let universe = generate_universe();
    run_game(number, &universe)
}

/// The sum of a sequence of round counts.
pub open spec fn sum_of(s: Seq<u16>) -> int
    decreases s.len(),
{
    if s.len() == 0 {
        0
    } else {
        sum_of(s.drop_last()) + s.last()
    }
}

/// Add up the round counts of a batch run, for averaging.
pub fn total_rounds(counts: &Vec<u16>) -> (r: u64)
    requires
        counts@.len() <= 0x1_0000_0000,
    ensures
        r == sum_of(counts@),
{
    let mut r: u64 = 0;
    let mut i: usize = 0;
    while i < counts.len()
        invariant
            i <= counts@.len(),
            counts@.len() <= 0x1_0000_0000,
            r == sum_of(counts@.subrange(0, i as int)),
            r <= i * 0xffff,
        decreases counts@.len() - i,
    {
        proof {
            assert(counts@.subrange(0, i + 1).drop_last() =~= counts@.subrange(0, i as int));
            assert(counts@.subrange(0, i + 1).last() == counts@[i as int]);
        }
        r = r + counts[i] as u64;
        i += 1;
    }
    proof {
        assert(counts@.subrange(0, counts@.len() as int) =~= counts@);
    }
    r
}

/// Play the engine to completion against every code of the universe and
/// report each game's round count.  Exactly one game — the one whose
/// secret is the fixed opener — takes a single round.
pub fn bench() -> (r: Vec<u16>)
    ensures
        r@.len() == 5040,
        forall|i: int| 0 <= i < r@.len() ==> 1 <= #[trigger] r@[i] <= 5040,
        exists|i: int| 0 <= i < r@.len() && #[trigger] r@[i] == 1,
        forall|i: int, j: int| 0 <= i < j < r@.len() ==> !(r@[i] == 1 && r@[j] == 1),
{
    let universe = generate_universe();
    let opener = Number::new(0, 1, 2, 3);
    let mut res: Vec<u16> = Vec::new();
    let mut i: usize = 0;
    while i < universe.len()
        invariant
            is_universe(universe@),
            opener@ == (0int, 1int, 2int, 3int),
            i <= 5040,
            res@.len() == i,
            forall|j: int| 0 <= j < res@.len() ==> 1 <= #[trigger] res@[j] <= 5040,
            forall|j: int|
                0 <= j < res@.len() ==> ((#[trigger] res@[j] == 1) <==> universe@[j]@ == (
                0int,
                1int,
                2int,
                3int,
                )),
        decreases 5040 - i,
    {
        let number = universe[i];
        let rounds = run_game(number, &universe);
        res.push(rounds);
        i += 1;
    }
    proof {
        // the opener stands in the universe, so some entry is 1 ...
        assert(opener.wf());
        assert(universe@.contains(opener));
        let w = choose|w: int| 0 <= w < universe@.len() && universe@[w] == opener;
        assert(res@[w] == 1);
        // ... and only one, since the universe has no duplicates
        assert forall|i: int, j: int| 0 <= i < j < res@.len() implies !(res@[i] == 1 && res@[j]
            == 1) by {
            if res@[i] == 1 && res@[j] == 1 {
                Number::lemma_eq_by_view(universe@[i], universe@[j]);
                assert(universe@[i] == universe@[j]);
                assert(false);
            }
        }
    }
    res
}

} // verus!
