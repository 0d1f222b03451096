//! Enumeration of the universe: every valid code, exactly once.

use vstd::prelude::*;
use crate::code::Number;

verus! {

/// The rank of a code: its digits read as a four-digit decimal numeral.
/// Valid codes have pairwise-distinct ranks, which orders the universe.
pub open spec fn key(n: Number) -> int {
    n@.0 * 1000 + n@.1 * 100 + n@.2 * 10 + n@.3
}

/// A sequence is the universe when it has exactly 5040 entries, all of
/// them valid, none repeated, and every valid code among them.
pub open spec fn is_universe(s: Seq<Number>) -> bool {
    &&& s.len() == 5040
    &&& (forall|i: int| 0 <= i < s.len() ==> (#[trigger] s[i]).wf())
    &&& s.no_duplicates()
    &&& (forall|n: Number| n.wf() ==> #[trigger] s.contains(n))
}

/// One where a digit has already been passed: 1 if `x < t`, else 0.
spec fn passed(x: int, t: int) -> int {
    if x < t {
        1
    } else {
        0
    }
}

/// A valid code whose rank lies in the thousands block of `a` has `a` as
/// its first digit.
proof fn lemma_key_pins_one(n: Number, a: int)
    requires
        n.wf(),
        0 <= a <= 9,
        a * 1000 <= key(n) < (a + 1) * 1000,
    ensures
        n@.0 == a,
{
    assert(0 <= n@.1 * 100 + n@.2 * 10 + n@.3 <= 999);
}

/// A valid code whose rank lies in the hundreds block of `(a, b)` has
/// `a` and `b` as its first two digits.
proof fn lemma_key_pins_two(n: Number, a: int, b: int)
    requires
        n.wf(),
        0 <= a <= 9,
        0 <= b <= 9,
        a * 1000 + b * 100 <= key(n) < a * 1000 + (b + 1) * 100,
    ensures
        n@.0 == a,
        n@.1 == b,
{
    lemma_key_pins_one(n, a);
    assert(0 <= n@.2 * 10 + n@.3 <= 99);
}

/// A valid code whose rank lies in the tens block of `(a, b, c)` has
/// `a`, `b` and `c` as its first three digits.
proof fn lemma_key_pins_three(n: Number, a: int, b: int, c: int)
    requires
        n.wf(),
        0 <= a <= 9,
        0 <= b <= 9,
        0 <= c <= 9,
        a * 1000 + b * 100 + c * 10 <= key(n) < a * 1000 + b * 100 + (c + 1) * 10,
    ensures
        n@.0 == a,
        n@.1 == b,
        n@.2 == c,
{
    lemma_key_pins_two(n, a, b);
    assert(0 <= n@.3 <= 9);
}

/// Ranks are injective on valid codes: a code whose rank equals the
/// numeral of `(a, b, c, d)` has exactly those digits.
proof fn lemma_key_pins_all(n: Number, a: int, b: int, c: int, d: int)
    requires
        n.wf(),
        0 <= a <= 9,
        0 <= b <= 9,
        0 <= c <= 9,
        0 <= d <= 9,
        key(n) == a * 1000 + b * 100 + c * 10 + d,
    ensures
        n@ == (a, b, c, d),
{
    lemma_key_pins_three(n, a, b, c);
}

/// Build the universe: all `10 * 9 * 8 * 7 == 5040` codes of four
/// pairwise-distinct digits, in ascending rank order.
#[verifier::loop_isolation(false)]
pub fn generate_universe() -> (r: Vec<Number>)
    ensures
        is_universe(r@),
{
    let mut res: Vec<Number> = Vec::new();
    let mut a: i8 = 0;
    while a < 10
        invariant
            0 <= a <= 10,
            res@.len() == a * 504,
            forall|i: int| 0 <= i < res@.len() ==> (#[trigger] res@[i]).wf(),
            forall|i: int| 0 <= i < res@.len() ==> key(#[trigger] res@[i]) < a * 1000,
            forall|i: int, j: int|
                0 <= i < j < res@.len() ==> key(res@[i]) < key(res@[j]),
            forall|n: Number|
                n.wf() && key(n) < a * 1000 ==> #[trigger] res@.contains(n),
        decreases 10 - a,
    {
        let mut b: i8 = 0;
        while b < 10
            invariant
                0 <= b <= 10,
                res@.len() == a * 504 + 56 * (b - passed(a as int, b as int)),
                forall|i: int| 0 <= i < res@.len() ==> (#[trigger] res@[i]).wf(),
                forall|i: int|
                    0 <= i < res@.len() ==> key(#[trigger] res@[i]) < a * 1000 + b * 100,
                forall|i: int, j: int|
                    0 <= i < j < res@.len() ==> key(res@[i]) < key(res@[j]),
                forall|n: Number|
                    n.wf() && key(n) < a * 1000 + b * 100 ==> #[trigger] res@.contains(n),
            decreases 10 - b,
        {
            if b != a {
                let mut c: i8 = 0;
                while c < 10
                    invariant
                        0 <= c <= 10,
                        res@.len() == a * 504 + 56 * (b - passed(a as int, b as int)) + 7 * (c
                            - passed(a as int, c as int) - passed(b as int, c as int)),
                        forall|i: int| 0 <= i < res@.len() ==> (#[trigger] res@[i]).wf(),
                        forall|i: int|
                            0 <= i < res@.len() ==> key(#[trigger] res@[i]) < a * 1000 + b * 100
                                + c * 10,
                        forall|i: int, j: int|
                            0 <= i < j < res@.len() ==> key(res@[i]) < key(res@[j]),
                        forall|n: Number|
                            n.wf() && key(n) < a * 1000 + b * 100 + c * 10
                                ==> #[trigger] res@.contains(n),
                    decreases 10 - c,
                {
                    if c != a && c != b {
                        let mut d: i8 = 0;
                        while d < 10
                            invariant
                                0 <= d <= 10,
                                res@.len() == a * 504 + 56 * (b - passed(a as int, b as int)) + 7
                                    * (c - passed(a as int, c as int) - passed(b as int, c as int))
                                    + (d - passed(a as int, d as int) - passed(b as int, d as int)
                                    - passed(c as int, d as int)),
                                forall|i: int| 0 <= i < res@.len() ==> (#[trigger] res@[i]).wf(),
                                forall|i: int|
                                    0 <= i < res@.len() ==> key(#[trigger] res@[i]) < a * 1000 + b
                                        * 100 + c * 10 + d,
                                forall|i: int, j: int|
                                    0 <= i < j < res@.len() ==> key(res@[i]) < key(res@[j]),
                                forall|n: Number|
                                    n.wf() && key(n) < a * 1000 + b * 100 + c * 10 + d
                                        ==> #[trigger] res@.contains(n),
                            decreases 10 - d,
                        {
                            if d != a && d != b && d != c {
                                let ghost prev = res@;
                                let n = Number::new(a, b, c, d);
                                res.push(n);
                                proof {
                                    assert(key(n) == a * 1000 + b * 100 + c * 10 + d);
                                    assert forall|i: int| 0 <= i < prev.len() implies res@[i]
                                        == prev[i] by {}
                                    assert forall|m: Number|
                                        m.wf() && key(m) < a * 1000 + b * 100 + c * 10 + (d + 1)
                                        implies #[trigger] res@.contains(m) by {
                                        if key(m) < a * 1000 + b * 100 + c * 10 + d {
                                            assert(prev.contains(m));
                                            let i = choose|i: int|
                                                0 <= i < prev.len() && prev[i] == m;
                                            assert(res@[i] == m);
                                        } else {
                                            lemma_key_pins_all(
                                                m,
                                                a as int,
                                                b as int,
                                                c as int,
                                                d as int,
                                            );
                                            Number::lemma_eq_by_view(m, n);
                                            assert(res@[prev.len() as int] == n);
                                        }
                                    }
                                }
                            } else {
                                proof {
                                    assert forall|m: Number|
                                        m.wf() && key(m) < a * 1000 + b * 100 + c * 10 + (d + 1)
                                        implies #[trigger] res@.contains(m) by {
                                        if key(m) >= a * 1000 + b * 100 + c * 10 + d {
                                            lemma_key_pins_all(
                                                m,
                                                a as int,
                                                b as int,
                                                c as int,
                                                d as int,
                                            );
                                            assert(false);
                                        }
                                    }
                                }
                            }
                            d += 1;
                        }
                    } else {
                        proof {
                            assert forall|m: Number|
                                m.wf() && key(m) < a * 1000 + b * 100 + (c + 1) * 10
                                implies #[trigger] res@.contains(m) by {
                                if key(m) >= a * 1000 + b * 100 + c * 10 {
                                    lemma_key_pins_three(m, a as int, b as int, c as int);
                                    assert(false);
                                }
                            }
                        }
                    }
                    c += 1;
                }
            } else {
                proof {
                    assert forall|m: Number|
                        m.wf() && key(m) < a * 1000 + (b + 1) * 100
                        implies #[trigger] res@.contains(m) by {
                        if key(m) >= a * 1000 + b * 100 {
                            lemma_key_pins_two(m, a as int, b as int);
                            assert(false);
                        }
                    }
                }
            }
            b += 1;
        }
        a += 1;
    }
    proof {
        assert forall|n: Number| n.wf() implies #[trigger] res@.contains(n) by {
            assert(key(n) < 10000);
        }
        assert forall|i: int, j: int|
            0 <= i < res@.len() && 0 <= j < res@.len() && i != j implies res@[i] != res@[j] by {
            if i < j {
                assert(key(res@[i]) < key(res@[j]));
            } else {
                assert(key(res@[j]) < key(res@[i]));
            }
        }
    }
    res
}

} // verus!
