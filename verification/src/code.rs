//! The game's data types: codes and feedback.
//!
//! A [`Number`] is a code of four pairwise-distinct digits; a
//! [`BullsAndCows`] is the feedback produced by comparing two codes.  Both
//! carry a type invariant, so every value that exec code can hold is valid.
//! A [`Guess`] pairs a proposed code with the feedback it received.

use vstd::prelude::*;
use vstd::string::StrSliceExecFns;
use vstd::string::StringExecFns;

verus! {

/// A character that stands for a decimal digit.
pub open spec fn is_digit_char(c: char) -> bool {
    48 <= c as int <= 57
}

/// The value of a decimal digit character.
pub open spec fn digit_val(c: char) -> int {
    c as int - 48
}

/// The character that stands for a decimal digit value.
pub open spec fn digit_char(d: int) -> char {
    if d == 0 {
        '0'
    } else if d == 1 {
        '1'
    } else if d == 2 {
        '2'
    } else if d == 3 {
        '3'
    } else if d == 4 {
        '4'
    } else if d == 5 {
        '5'
    } else if d == 6 {
        '6'
    } else if d == 7 {
        '7'
    } else if d == 8 {
        '8'
    } else {
        '9'
    }
}

/// The digits of a valid code: each in `0..=9` and pairwise distinct.
pub open spec fn valid_digits(a: int, b: int, c: int, d: int) -> bool {
    &&& 0 <= a <= 9
    &&& 0 <= b <= 9
    &&& 0 <= c <= 9
    &&& 0 <= d <= 9
    &&& a != b
    &&& a != c
    &&& a != d
    &&& b != c
    &&& b != d
    &&& c != d
}

/// The ranges a feedback pair must satisfy.
pub open spec fn valid_feedback(bulls: int, cows: int) -> bool {
    &&& 0 <= bulls <= 4
    &&& 0 <= cows <= 4
    &&& bulls + cows <= 4
}

/// A four-digit code with pairwise-distinct digits, the unit of both
/// secrets and guesses.  Position matters: two codes are equal exactly
/// when all four positions match.
#[derive(Copy, Clone, PartialEq, Eq, Structural, Debug)]
pub struct Number {
    a: i8,
    b: i8,
    c: i8,
    d: i8,
}

impl View for Number {
    type V = (int, int, int, int);

    closed spec fn view(&self) -> (int, int, int, int) {
        (self.a as int, self.b as int, self.c as int, self.d as int)
    }
}

impl Number {
    /// A code is well formed when its digits are valid.
    pub open spec fn wf(self) -> bool {
        valid_digits(self@.0, self@.1, self@.2, self@.3)
    }

    #[verifier::type_invariant]
    pub(crate) open spec fn type_inv(self) -> bool {
        self.wf()
    }

    pub fn new(a: i8, b: i8, c: i8, d: i8) -> (r: Number)
        requires
            valid_digits(a as int, b as int, c as int, d as int),
        ensures
            r@ == (a as int, b as int, c as int, d as int),
    {
        Number { a, b, c, d }
    }

    pub fn is_correct(a: i8, b: i8, c: i8, d: i8) -> (r: bool)
        ensures
            r == valid_digits(a as int, b as int, c as int, d as int),
    {
        (0 <= a && a <= 9) && (0 <= b && b <= 9) && (0 <= c && c <= 9) && (0 <= d && d <= 9)
            && (a != b) && (a != c) && (a != d) && (b != c) && (b != d) && (c != d)
    }

    pub fn to_tuple(self) -> (r: (i8, i8, i8, i8))
        ensures
            (r.0 as int, r.1 as int, r.2 as int, r.3 as int) == self@,
    {
        (self.a, self.b, self.c, self.d)
    }

    /// Parse a code from its canonical form: the four digits
    /// concatenated, leading zeros preserved.
    pub fn from(n: &str) -> (r: Number)
        requires
            n@.len() == 4,
            forall|i: int| 0 <= i < 4 ==> is_digit_char(#[trigger] n@[i]),
            valid_digits(
                digit_val(n@[0]),
                digit_val(n@[1]),
                digit_val(n@[2]),
                digit_val(n@[3]),
            ),
        ensures
            r@ == (digit_val(n@[0]), digit_val(n@[1]), digit_val(n@[2]), digit_val(n@[3])),
    {
        let a = digit_of_char(n.get_char(0));
        let b = digit_of_char(n.get_char(1));
        let c = digit_of_char(n.get_char(2));
        let d = digit_of_char(n.get_char(3));
        Number::new(a, b, c, d)
    }

    /// The canonical form of the code: its four digits concatenated,
    /// with no separators.
    pub fn to_string(self) -> (r: String)
        ensures
            r@ == seq![
                digit_char(self@.0),
                digit_char(self@.1),
                digit_char(self@.2),
                digit_char(self@.3),
            ],
    {
        proof {
            use_type_invariant(&self);
        }
        let mut s = String::new();
        s.append(digit_str(self.a));
        s.append(digit_str(self.b));
        s.append(digit_str(self.c));
        s.append(digit_str(self.d));
        proof {
            assert(s@ =~= seq![
                digit_char(self@.0),
                digit_char(self@.1),
                digit_char(self@.2),
                digit_char(self@.3),
            ]);
        }
        s
    }

    /// Two codes with the same digits are the same code.
    pub proof fn lemma_eq_by_view(x: Number, y: Number)
        ensures
            (x == y) <==> (x@ == y@),
    {
    }
}

/// The value of a single decimal digit character.
fn digit_of_char(c: char) -> (r: i8)
    requires
        is_digit_char(c),
    ensures
        r as int == digit_val(c),
{
    (c as u32 - 48) as i8
}

/// The one-character numeral of a single decimal digit value.
fn digit_str(d: i8) -> (r: &'static str)
    requires
        0 <= d <= 9,
    ensures
        r@ == seq![digit_char(d as int)],
{
    proof {
        reveal_strlit("0");
        reveal_strlit("1");
        reveal_strlit("2");
        reveal_strlit("3");
        reveal_strlit("4");
        reveal_strlit("5");
        reveal_strlit("6");
        reveal_strlit("7");
        reveal_strlit("8");
        reveal_strlit("9");
    }
    let r = match d {
        0 => "0",
        1 => "1",
        2 => "2",
        3 => "3",
        4 => "4",
        5 => "5",
        6 => "6",
        7 => "7",
        8 => "8",
        _ => "9",
    };
    proof {
        assert(r@ =~= seq![digit_char(d as int)]);
    }
    r
}

/// Count a boolean as an integer, for stating digit-match counts.
pub open spec fn b2i(b: bool) -> int {
    if b {
        1
    } else {
        0
    }
}

/// The number of positions where `x` and `y` hold the same digit.
pub open spec fn bulls_of(x: Number, y: Number) -> int {
    b2i(x@.0 == y@.0) + b2i(x@.1 == y@.1) + b2i(x@.2 == y@.2) + b2i(x@.3 == y@.3)
}

/// The number of ordered pairs of distinct positions `(i, j)` where the
/// digit of `x` at `i` equals the digit of `y` at `j`.
pub open spec fn cows_of(x: Number, y: Number) -> int {
    b2i(x@.0 == y@.1) + b2i(x@.0 == y@.2) + b2i(x@.0 == y@.3) + b2i(x@.1 == y@.0) + b2i(
        x@.1 == y@.2,
    ) + b2i(x@.1 == y@.3) + b2i(x@.2 == y@.0) + b2i(x@.2 == y@.1) + b2i(x@.2 == y@.3) + b2i(
        x@.3 == y@.0,
    ) + b2i(x@.3 == y@.1) + b2i(x@.3 == y@.2)
}

/// The full feedback for comparing `x` against `y`.
pub open spec fn feedback(x: Number, y: Number) -> (int, int) {
    (bulls_of(x, y), cows_of(x, y))
}

/// Law: for every pair of valid codes the feedback satisfies
/// `0 <= bulls <= 4`, `0 <= cows <= 4` and `bulls + cows <= 4`.
pub proof fn lemma_feedback_range(x: Number, y: Number)
    requires
        x.wf(),
        y.wf(),
    ensures
        0 <= bulls_of(x, y) <= 4,
        0 <= cows_of(x, y) <= 4,
        bulls_of(x, y) + cows_of(x, y) <= 4,
{
    // Each digit of x can match at most one digit of y, since y's digits
    // are pairwise distinct; the sixteen indicators therefore sum to at
    // most four.
    assert(b2i(x@.0 == y@.0) + b2i(x@.0 == y@.1) + b2i(x@.0 == y@.2) + b2i(x@.0 == y@.3) <= 1);
    assert(b2i(x@.1 == y@.0) + b2i(x@.1 == y@.1) + b2i(x@.1 == y@.2) + b2i(x@.1 == y@.3) <= 1);
    assert(b2i(x@.2 == y@.0) + b2i(x@.2 == y@.1) + b2i(x@.2 == y@.2) + b2i(x@.2 == y@.3) <= 1);
    assert(b2i(x@.3 == y@.0) + b2i(x@.3 == y@.1) + b2i(x@.3 == y@.2) + b2i(x@.3 == y@.3) <= 1);
}

/// Law: comparing a valid code with itself yields four bulls and no cows.
pub proof fn lemma_feedback_self(x: Number)
    requires
        x.wf(),
    ensures
        feedback(x, x) == (4int, 0int),
{
}

/// Four bulls identify the code: only the code itself matches a code at
/// every position.
pub proof fn lemma_four_bulls_equal(x: Number, y: Number)
    requires
        bulls_of(x, y) == 4,
    ensures
        x == y,
{
    Number::lemma_eq_by_view(x, y);
}

/// Law: feedback is symmetric, in bulls and in cows alike.
pub proof fn lemma_feedback_symmetric(x: Number, y: Number)
    requires
        x.wf(),
        y.wf(),
    ensures
        bulls_of(x, y) == bulls_of(y, x),
        cows_of(x, y) == cows_of(y, x),
{
}

/// The (bulls, cows) feedback produced by comparing two codes.
#[derive(Copy, Clone, PartialEq, Eq, Structural, Debug)]
pub struct BullsAndCows {
    bulls: i8,
    cows: i8,
}

impl View for BullsAndCows {
    type V = (int, int);

    closed spec fn view(&self) -> (int, int) {
        (self.bulls as int, self.cows as int)
    }
}

impl BullsAndCows {
    /// A feedback pair is well formed when both counts are in range.
    pub open spec fn wf(self) -> bool {
        valid_feedback(self@.0, self@.1)
    }

    #[verifier::type_invariant]
    pub(crate) open spec fn type_inv(self) -> bool {
        self.wf()
    }

    pub fn get_bulls(self) -> (r: i8)
        ensures
            r as int == self@.0,
    {
        self.bulls
    }

    pub fn new(bulls: i8, cows: i8) -> (r: BullsAndCows)
        requires
            valid_feedback(bulls as int, cows as int),
        ensures
            r@ == (bulls as int, cows as int),
    {
        BullsAndCows { bulls, cows }
    }

    pub fn is_correct(bulls: i8, cows: i8) -> (r: bool)
        ensures
            r == valid_feedback(bulls as int, cows as int),
    {
        (0 <= bulls && bulls <= 4) && (0 <= cows && cows <= 4) && (bulls as i16 + cows as i16 <= 4)
    }

    /// Compare two codes.  Bulls count matching positions; cows count
    /// digits shared between the codes at differing positions.
    pub fn from(n: Number, m: Number) -> (r: BullsAndCows)
        ensures
            r@ == feedback(n, m),
    {
        proof {
            use_type_invariant(&n);
            use_type_invariant(&m);
            lemma_feedback_range(n, m);
        }
        let bulls: i8 = (if n.a == m.a { 1 } else { 0 }) + (if n.b == m.b { 1 } else { 0 }) + (
        if n.c == m.c { 1 } else { 0 }) + (if n.d == m.d { 1 } else { 0 });
        let cows: i8 = (if n.a == m.b { 1 } else { 0 }) + (if n.a == m.c { 1 } else { 0 }) + (
        if n.a == m.d { 1 } else { 0 }) + (if n.b == m.a { 1 } else { 0 }) + (if n.b == m.c { 1 } else { 0 })
            + (if n.b == m.d { 1 } else { 0 }) + (if n.c == m.a { 1 } else { 0 }) + (if n.c == m.b { 1 } else { 0 })
            + (if n.c == m.d { 1 } else { 0 }) + (if n.d == m.a { 1 } else { 0 }) + (if n.d == m.b { 1 } else { 0 })
            + (if n.d == m.c { 1 } else { 0 });
        BullsAndCows { bulls, cows }
    }

    pub fn sum(self) -> (r: i8)
        ensures
            r as int == self@.0 + self@.1,
    {
        proof {
            use_type_invariant(&self);
        }
        self.bulls + self.cows
    }

    /// Two feedback values with the same counts are the same value.
    pub proof fn lemma_eq_by_view(x: BullsAndCows, y: BullsAndCows)
        ensures
            (x == y) <==> (x@ == y@),
    {
    }
}

/// One round's record: the code that was proposed and the feedback it got.
#[derive(Copy, Clone, PartialEq, Eq, Structural, Debug)]
pub struct Guess {
    number: Number,
    bulls_and_cows: BullsAndCows,
}

impl Guess {
    /// The code this entry proposed.
    pub closed spec fn number_spec(self) -> Number {
        self.number
    }

    /// The feedback this entry received.
    pub closed spec fn feedback_spec(self) -> BullsAndCows {
        self.bulls_and_cows
    }

    pub fn get_number(self) -> (r: Number)
        ensures
            r == self.number_spec(),
    {
        self.number
    }

    pub fn get_bulls_and_cows(self) -> (r: BullsAndCows)
        ensures
            r == self.feedback_spec(),
    {
        self.bulls_and_cows
    }

    pub fn new(number: Number, bulls_and_cows: BullsAndCows) -> (r: Guess)
        ensures
            r.number_spec() == number,
            r.feedback_spec() == bulls_and_cows,
    {
        Guess { number, bulls_and_cows }
    }
}

} // verus!
