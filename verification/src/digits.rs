//! Digit-pool helpers: removing reserved digits from the full digit row
//! and drawing a random valid code from what is left.

use vstd::prelude::*;
use rand::seq::SliceRandom;
use crate::code::Number;
use crate::code::valid_digits;

verus! {

broadcast use vstd::seq_lib::group_to_multiset_ensures, vstd::multiset::group_multiset_axioms;

/// The sequence with its first occurrence of `x` removed, if any.
pub open spec fn remove_first(s: Seq<i8>, x: i8) -> Seq<i8>
    decreases s.len(),
{
    if s.len() == 0 {
        s
    } else if s[0] == x {
        s.drop_first()
    } else {
        seq![s[0]] + remove_first(s.drop_first(), x)
    }
}

/// The sequence after removing the first occurrence of each item in turn.
pub open spec fn exclude_spec(s: Seq<i8>, items: Seq<i8>) -> Seq<i8>
    decreases items.len(),
{
    if items.len() == 0 {
        s
    } else {
        exclude_spec(remove_first(s, items[0]), items.drop_first())
    }
}

/// Removal of one occurrence of each of a list of items.
pub trait ExcludeAll: View<V = Seq<i8>> + Sized {
    /// Remove the first occurrence of each item of `items_to_exclude`;
    /// every item must be present.
    fn exclude(self, items_to_exclude: Vec<i8>) -> (res: Vec<i8>)
        requires
            items_to_exclude@.to_multiset().subset_of(self@.to_multiset()),
        ensures
            res@ == exclude_spec(self@, items_to_exclude@),
            res@.to_multiset() == self@.to_multiset().sub(items_to_exclude@.to_multiset()),
            res@.len() + items_to_exclude@.len() == self@.len(),
    ;
}

impl ExcludeAll for Vec<i8> {
    fn exclude(self, items_to_exclude: Vec<i8>) -> (res: Vec<i8>) {
        match try_exclude(self, items_to_exclude) {
            Some(res) => res,
            None => {
                proof {
                    assert(false);
                }
                Vec::new()
            },
        }
    }
}

/// The first position of `x` in `v`, if it occurs at all.
fn position(v: &Vec<i8>, x: i8) -> (r: Option<usize>)
    ensures
        r matches Some(i) ==> i < v@.len() && v@[i as int] == x && (forall|j: int|
            0 <= j < i ==> v@[j] != x),
        r is None ==> !v@.contains(x),
{
    let mut i: usize = 0;
    while i < v.len()
        invariant
            i <= v@.len(),
            forall|j: int| 0 <= j < i ==> v@[j] != x,
        decreases v@.len() - i,
    {
        if v[i] == x {
            return Some(i);
        }
        i += 1;
    }
    None
}

/// Removing the first occurrence of `x`, which stands at `idx`, is the
/// same as removing the element at `idx`.
proof fn lemma_remove_first_at(s: Seq<i8>, x: i8, idx: int)
    requires
        0 <= idx < s.len(),
        s[idx] == x,
        forall|j: int| 0 <= j < idx ==> s[j] != x,
    ensures
        remove_first(s, x) == s.remove(idx),
    decreases idx,
{
    if idx == 0 {
        assert(s.remove(0) =~= s.drop_first());
    } else {
        lemma_remove_first_at(s.drop_first(), x, idx - 1);
        assert(seq![s[0]] + s.drop_first().remove(idx - 1) =~= s.remove(idx));
    }
}

/// Excluding one more item after a list of items removes its first
/// occurrence from what the list left over.
proof fn lemma_exclude_spec_push(s: Seq<i8>, items: Seq<i8>, x: i8)
    ensures
        exclude_spec(s, items.push(x)) == remove_first(exclude_spec(s, items), x),
    decreases items.len(),
{
    let p = items.push(x);
    if items.len() == 0 {
        assert(p[0] == x);
        assert(p.drop_first().len() == 0);
        assert(exclude_spec(s, p) == exclude_spec(remove_first(s, x), p.drop_first()));
        assert(exclude_spec(remove_first(s, x), p.drop_first()) == remove_first(s, x));
        assert(exclude_spec(s, items) == s);
    } else {
        lemma_exclude_spec_push(remove_first(s, items[0]), items.drop_first(), x);
        assert(p[0] == items[0]);
        assert(p.drop_first() =~= items.drop_first().push(x));
        assert(exclude_spec(s, p) == exclude_spec(remove_first(s, items[0]), p.drop_first()));
        assert(exclude_spec(s, items) == exclude_spec(remove_first(s, items[0]), items.drop_first()));
    }
}

/// The counts of a sequence split at `k` add up to its own counts.
proof fn lemma_split_counts(s: Seq<i8>, k: int)
    requires
        0 <= k <= s.len(),
    ensures
        forall|x: i8|
            s.to_multiset().count(x) == s.subrange(0, k).to_multiset().count(x) + s.subrange(
                k,
                s.len() as int,
            ).to_multiset().count(x),
{
    assert(s =~= s.subrange(0, k) + s.subrange(k, s.len() as int));
    vstd::seq_lib::lemma_multiset_commutative(s.subrange(0, k), s.subrange(k, s.len() as int));
}

/// Remove one occurrence of each listed item, or report `None` when some
/// item is not present often enough.
pub fn try_exclude(v: Vec<i8>, items: Vec<i8>) -> (r: Option<Vec<i8>>)
    ensures
        items@.to_multiset().subset_of(v@.to_multiset()) ==> (r matches Some(res)
            && res@ == exclude_spec(v@, items@)
            && res@.to_multiset() == v@.to_multiset().sub(items@.to_multiset())
            && res@.len() + items@.len() == v@.len()),
        !items@.to_multiset().subset_of(v@.to_multiset()) ==> r is None,
{
    let ghost orig = v@;
    let mut res = v;
    let mut k: usize = 0;
    while k < items.len()
        invariant
            orig == v@,
            k <= items@.len(),
            res@ == exclude_spec(orig, items@.subrange(0, k as int)),
            res@.to_multiset() == orig.to_multiset().sub(
                items@.subrange(0, k as int).to_multiset(),
            ),
            res@.len() + k == orig.len(),
            items@.subrange(0, k as int).to_multiset().subset_of(orig.to_multiset()),
        decreases items@.len() - k,
    {
        let ghost prefix = items@.subrange(0, k as int);
        let item = items[k];
        match position(&res, item) {
            Some(idx) => {
                let ghost before = res@;
                res.remove(idx);
                proof {
                    assert(before.contains(item));
                    assert(before.to_multiset().count(item) > 0);
                    assert(items@.subrange(0, k + 1) =~= prefix.push(item));
                    assert(before.remove(idx as int).to_multiset() == before.to_multiset().remove(
                        item,
                    ));
                    assert(res@.to_multiset() =~= orig.to_multiset().sub(
                        items@.subrange(0, k + 1).to_multiset(),
                    ));
                    assert(items@.subrange(0, k + 1).to_multiset().subset_of(
                        orig.to_multiset(),
                    ));
                    lemma_remove_first_at(before, item, idx as int);
                    lemma_exclude_spec_push(orig, prefix, item);
                    assert(res@ == exclude_spec(orig, items@.subrange(0, k + 1)));
                }
            },
            None => {
                proof {
                    lemma_split_counts(items@, k as int);
                    assert(items@.subrange(k as int, items@.len() as int)[0] == item);
                    assert(items@.subrange(k as int, items@.len() as int).contains(item));
                    assert(items@.subrange(k as int, items@.len() as int).to_multiset().count(item)
                        > 0);
                    assert(res@.to_multiset().count(item) == 0);
                    assert(items@.to_multiset().count(item) > orig.to_multiset().count(item));
                    assert(!items@.to_multiset().subset_of(orig.to_multiset()));
                }
                return None;
            },
        }
        k += 1;
    }
    proof {
        assert(items@.subrange(0, items@.len() as int) =~= items@);
    }
    Some(res)
}

/// A sequence is duplicate-free when no value occurs in it twice.
proof fn lemma_nodup_from_bounded_counts(t: Seq<i8>)
    requires
        forall|x: i8| t.to_multiset().count(x) <= 1,
    ensures
        t.no_duplicates(),
{
    t.lemma_multiset_has_no_duplicates_conv();
}

/// In a duplicate-free sequence every value occurs at most once.
proof fn lemma_nodup_count_at_most_one(s: Seq<i8>)
    requires
        s.no_duplicates(),
    ensures
        forall|x: i8| s.to_multiset().count(x) <= 1,
{
    s.lemma_multiset_has_no_duplicates();
    assert forall|x: i8| s.to_multiset().count(x) <= 1 by {
        if s.to_multiset().count(x) > 0 {
            assert(s.to_multiset().contains(x));
        }
    }
}

/// An element of the pool left after excluding `ex` from a base row
/// without repeated digits is a digit of the base and not an excluded one.
proof fn lemma_pool_element(pool: Seq<i8>, base: Seq<i8>, ex: Seq<i8>, x: i8)
    requires
        forall|y: i8| base.to_multiset().count(y) <= 1,
        forall|j: int| 0 <= j < base.len() ==> 0 <= #[trigger] base[j] <= 9,
        pool.to_multiset() == base.to_multiset().sub(ex.to_multiset()),
        pool.contains(x),
    ensures
        0 <= x <= 9,
        !ex.contains(x),
{
    assert(pool.to_multiset().count(x) > 0);
    assert(base.to_multiset().count(x) > 0);
    assert(base.to_multiset().contains(x));
    assert(base.contains(x));
    let j = choose|j: int| 0 <= j < base.len() && base[j] == x;
    assert(0 <= base[j] <= 9);
    if ex.contains(x) {
        assert(ex.to_multiset().count(x) > 0);
        assert(pool.to_multiset().count(x) == 0);
        assert(false);
    }
}

/// Copy a digit vector.
fn copy_digits(v: &Vec<i8>) -> (r: Vec<i8>)
    ensures
        r@ == v@,
{
    let mut r: Vec<i8> = Vec::new();
    let mut i: usize = 0;
    while i < v.len()
        invariant
            i <= v@.len(),
            r@ == v@.subrange(0, i as int),
        decreases v@.len() - i,
    {
        r.push(v[i]);
        proof {
            assert(r@ =~= v@.subrange(0, i + 1));
        }
        i += 1;
    }
    proof {
        assert(r@ =~= v@);
    }
    r
}

/// Relies on `rand::seq::SliceRandom::shuffle` with `rand::thread_rng`:
/// the elements are permuted in place.
#[verifier::external_body]
fn shuffle_digits(digits: &mut Vec<i8>)
    ensures
        final(digits)@.len() == old(digits)@.len(),
        final(digits)@.to_multiset() == old(digits)@.to_multiset(),
{
    digits.shuffle(&mut rand::thread_rng());
}

/// Draw a random valid code whose digits avoid the excluded ones as far
/// as the pool allows.  With at most six excluded digits the result uses
/// none of them; with eight, two excluded digits are reused.  A pool of
/// exactly three digits cannot fill a code, so seven exclusions are
/// ruled out.
pub fn generate_number_random(exclude_digits: Vec<i8>) -> (r: Number)
    requires
        forall|i: int| 0 <= i < exclude_digits@.len() ==> 0 <= #[trigger] exclude_digits@[i] <= 9,
        exclude_digits@.no_duplicates(),
        exclude_digits@.len() <= 8,
        exclude_digits@.len() != 7,
    ensures
        exclude_digits@.len() <= 6 ==> forall|i: int|
            0 <= i < exclude_digits@.len() ==> ((#[trigger] exclude_digits@[i]) as int != r@.0
                && exclude_digits@[i] as int != r@.1 && exclude_digits@[i] as int != r@.2
                && exclude_digits@[i] as int != r@.3),
        forall|i: int|
            0 <= i < exclude_digits@.len() ==> ((#[trigger] exclude_digits@[i]) as int != r@.0
                && exclude_digits@[i] as int != r@.1),
        exclude_digits@.len() == 8 ==> ((exists|i: int|
            0 <= i < exclude_digits@.len() && (#[trigger] exclude_digits@[i]) as int == r@.2) && (
        exists|j: int|
            0 <= j < exclude_digits@.len() && (#[trigger] exclude_digits@[j]) as int == r@.3)),
{
    let ghost ex = exclude_digits@;
    let base: Vec<i8> = vec![0, 1, 2, 3, 4, 5, 6, 7, 8, 9];
    let ghost base_view = base@;
    proof {
        assert(base_view.no_duplicates());
        lemma_nodup_count_at_most_one(base_view);
        lemma_nodup_count_at_most_one(ex);
        assert forall|y: i8| ex.to_multiset().count(y) <= base_view.to_multiset().count(y) by {
            if ex.to_multiset().count(y) > 0 {
                assert(ex.to_multiset().contains(y));
                assert(ex.contains(y));
                let i = choose|i: int| 0 <= i < ex.len() && ex[i] == y;
                assert(0 <= y <= 9);
                assert(base_view[y as int] == y);
                assert(base_view.contains(y));
                assert(base_view.to_multiset().count(y) > 0);
            }
        }
    }
    let spare = copy_digits(&exclude_digits);
    let mut digits = base.exclude(exclude_digits);
    shuffle_digits(&mut digits);
    let ghost pool = digits@;
    proof {
        assert forall|x: i8| pool.to_multiset().count(x) <= 1 by {
            assert(base_view.to_multiset().count(x) <= 1);
        }
        lemma_nodup_from_bounded_counts(pool);
        assert(pool.len() + ex.len() == 10);
    }
    let a = digits.pop().unwrap();
    let b = digits.pop().unwrap();
    proof {
        assert(a == pool[pool.len() - 1] && pool.contains(a));
        assert(b == pool[pool.len() - 2] && pool.contains(b));
        lemma_pool_element(pool, base_view, ex, a);
        lemma_pool_element(pool, base_view, ex, b);
    }
    let (c, d) = if digits.len() > 0 {
        proof {
            // a pool of three digits would strand the last draw, so the
            // pool holds at least four here, and at most seven digits
            // were excluded
            assert(pool.len() != 3);
            assert(digits@.len() >= 2);
            assert(ex.len() <= 7);
        }
        let c = digits.pop().unwrap();
        let d = digits.pop().unwrap();
        proof {
            assert(c == pool[pool.len() - 3] && pool.contains(c));
            assert(d == pool[pool.len() - 4] && pool.contains(d));
            lemma_pool_element(pool, base_view, ex, c);
            lemma_pool_element(pool, base_view, ex, d);
        }
        (c, d)
    } else {
        let mut rest = spare;
        shuffle_digits(&mut rest);
        let ghost rest_view = rest@;
        proof {
            assert(rest_view.len() == 8);
            assert forall|x: i8| rest_view.to_multiset().count(x) <= 1 by {
                assert(ex.to_multiset().count(x) <= 1);
            }
            lemma_nodup_from_bounded_counts(rest_view);
        }
        let c = rest.pop().unwrap();
        let d = rest.pop().unwrap();
        proof {
            assert(c == rest_view[rest_view.len() - 1] && rest_view.contains(c));
            assert(d == rest_view[rest_view.len() - 2] && rest_view.contains(d));
            assert(ex.to_multiset().count(c) > 0 && ex.contains(c));
            assert(ex.to_multiset().count(d) > 0 && ex.contains(d));
            let i = choose|i: int| 0 <= i < ex.len() && ex[i] == c;
            let j = choose|j: int| 0 <= j < ex.len() && ex[j] == d;
            assert(0 <= c <= 9 && 0 <= d <= 9);
        }
        (c, d)
    };
    proof {
        assert(valid_digits(a as int, b as int, c as int, d as int));
        if ex.len() == 8 {
            assert(ex.contains(c));
            assert(ex.contains(d));
            let i = choose|i: int| 0 <= i < ex.len() && ex[i] == c;
            let j = choose|j: int| 0 <= j < ex.len() && ex[j] == d;
            assert(ex[i] as int == c as int);
            assert(ex[j] as int == d as int);
        }
    }
    Number::new(a, b, c, d)
}

} // verus!
