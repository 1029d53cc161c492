//! Median aggregation: a non-empty sequence of equally long submissions is
//! combined into one submission whose slot `j` holds the median of all
//! submissions' slot-`j` values. Per slot the values are sorted ascending;
//! an odd count takes the middle element, an even count takes the floor of
//! the mean of the two central elements (the documented tie-break rule).

use vstd::prelude::*;
use vstd::seq_lib::lemma_multiset_commutative;
use vstd::seq_lib::lemma_sorted_unique;
use vstd::relations::sorted_by;
use vstd::relations::total_ordering;

use crate::data::Submission;
use crate::errors::Error;

verus! {

/// The ascending order on values.
pub open spec fn value_leq() -> spec_fn(u64, u64) -> bool {
    |a: u64, b: u64| a <= b
}

/// The values of `s`, sorted ascending.
pub open spec fn sorted_of(s: Seq<u64>) -> Seq<u64> {
    s.sort_by(value_leq())
}

/// The median of a non-empty collection of values: the middle element of the
/// ascending ordering, or for an even count the floor of the mean of the two
/// central elements.
pub open spec fn median_of(s: Seq<u64>) -> u64 {
    let t = sorted_of(s);
    if s.len() % 2 == 1 {
        t[s.len() as int / 2]
    } else {
        ((t[s.len() as int / 2 - 1] + t[s.len() as int / 2]) / 2) as u64
    }
}

/// Slot `j` of every submission, in submission order.
pub open spec fn column(subs: Seq<Seq<u64>>, j: int) -> Seq<u64> {
    subs.map_values(|row: Seq<u64>| row[j])
}

/// The per-slot medians of a collection of equally long submissions.
pub open spec fn median_values(subs: Seq<Seq<u64>>, width: nat) -> Seq<u64> {
    Seq::new(width, |j: int| median_of(column(subs, j)))
}

/// Inserting an element anywhere adds it to the multiset of values.
proof fn lemma_insert_to_multiset(s: Seq<u64>, j: int, x: u64)
    requires
        0 <= j <= s.len(),
    ensures
        s.insert(j, x).to_multiset() == s.to_multiset().insert(x),
{
    broadcast use vstd::multiset::group_multiset_axioms;

    let left = s.subrange(0, j);
    let right = s.subrange(j, s.len() as int);
    assert(s =~= left + right);
    assert(s.insert(j, x) =~= left.push(x) + right);
    lemma_multiset_commutative(left, right);
    lemma_multiset_commutative(left.push(x), right);
    left.to_multiset_ensures();
    assert(left.push(x).to_multiset() =~= left.to_multiset().insert(x));
    assert(left.to_multiset().insert(x).add(right.to_multiset()) =~= left.to_multiset().add(
        right.to_multiset(),
    ).insert(x));
}

/// Sorts the values ascending; the result is exactly the mathematical
/// ascending ordering of the input.
pub fn sort_values(values: Vec<u64>) -> (r: Vec<u64>)
    ensures
        r@ == sorted_of(values@),
{
    let ghost leq = value_leq();
    let n = values.len();
    let mut r: Vec<u64> = Vec::new();
    proof {
        assert(r@ =~= values@.subrange(0, 0));
    }
    let mut i: usize = 0;
    while i < n
        invariant
            i <= n,
            n == values@.len(),
            sorted_by(r@, value_leq()),
            r@.to_multiset() == values@.subrange(0, i as int).to_multiset(),
        decreases n - i,
    {
        let x = values[i];
        let mut j: usize = 0;
        while j < r.len() && r[j] <= x
            invariant
                j <= r@.len(),
                forall|k: int| 0 <= k < j ==> r@[k] <= x,
            decreases r@.len() - j,
        {
            j = j + 1;
        }
        proof {
            lemma_insert_to_multiset(r@, j as int, x);
            values@.subrange(0, i as int).to_multiset_ensures();
            assert(values@.subrange(0, i + 1 as int) =~= values@.subrange(0, i as int).push(
                values@[i as int],
            ));
            let t = r@.insert(j as int, x);
            assert forall|p: int, q: int| 0 <= p <= q < t.len() implies value_leq()(
                t[p],
                t[q],
            ) by {
                assert(sorted_by(r@, value_leq()));
                if p < j && q == j {
                    assert(t[p] == r@[p]);
                } else if p == j && q > j {
                    assert(t[q] == r@[q - 1]);
                    assert(j < r@.len() ==> !(r@[j as int] <= x));
                    assert(value_leq()(r@[j as int], r@[q - 1]));
                } else if p < j && q > j {
                    assert(t[p] == r@[p] && t[q] == r@[q - 1]);
                } else if p > j && q > j {
                    assert(t[p] == r@[p - 1] && t[q] == r@[q - 1]);
                }
            }
        }
        r.insert(j, x);
        i = i + 1;
    }
    proof {
        assert(values@.subrange(0, n as int) =~= values@);
        values@.lemma_sort_by_ensures(leq);
        assert(total_ordering(leq));
        lemma_sorted_unique(r@, values@.sort_by(leq), leq);
        assert(r@ =~= sorted_of(values@));
    }
    r
}

/// The median of a non-empty vector of values.
fn median_value(values: Vec<u64>) -> (r: u64)
    requires
        values@.len() > 0,
    ensures
        r == median_of(values@),
{
    let ghost orig = values@;
    let sorted = sort_values(values);
    proof {
        orig.lemma_sort_by_ensures(value_leq());
        sorted@.to_multiset_ensures();
        orig.to_multiset_ensures();
        assert(sorted@.len() == orig.len());
    }
    let n = sorted.len();
    let mid = n / 2;
    if n % 2 == 1 {
        sorted[mid]
    } else {
        let a = sorted[mid - 1];
        let b = sorted[mid];
        proof {
            assert(sorted_by(sorted@, value_leq()));
            assert(value_leq()(sorted@[mid - 1], sorted@[mid as int]));
            assert(a <= b);
            assert(a as int + (b as int - a as int) / 2 == (a as int + b as int) / 2)
                by (nonlinear_arith)
                requires
                    a <= b,
            ;
        }
        a + (b - a) / 2
    }
}

/// Combines the accepted submissions of one round into its answer: slot by
/// slot, the median of all submitted values for that slot. Zero submissions
/// are rejected; the submissions must be equally long.
pub fn calculate_submission_median(submissions: &Vec<Submission>) -> (r: Result<
    Submission,
    Error,
>)
    requires
        forall|i: int|
            0 <= i < submissions@.len() ==> (#[trigger] submissions@[i])@.len()
                == submissions@[0]@.len(),
    ensures
        match r {
            Result::Ok(m) => submissions@.len() > 0 && m@ == median_values(
                submissions@.map_values(|s: Submission| s@),
                submissions@[0]@.len(),
            ),
            Result::Err(e) => submissions@.len() == 0 && e == Error::EmptyInput,
        },
{
    let ghost subs = submissions@.map_values(|s: Submission| s@);
    let n = submissions.len();
    if n == 0 {
        return Result::Err(Error::EmptyInput);
    }
    let width = submissions[0].values.len();
    let mut medians: Vec<u64> = Vec::new();
    let mut j: usize = 0;
    while j < width
        invariant
            j <= width,
            n == submissions@.len(),
            n > 0,
            width == submissions@[0]@.len(),
            forall|i: int|
                0 <= i < submissions@.len() ==> (#[trigger] submissions@[i])@.len() == width,
            subs == submissions@.map_values(|s: Submission| s@),
            medians@.len() == j,
            forall|k: int| 0 <= k < j ==> medians@[k] == median_of(column(subs, k)),
        decreases width - j,
    {
        let mut col: Vec<u64> = Vec::new();
        let mut i: usize = 0;
        while i < n
            invariant
                i <= n,
                n == submissions@.len(),
                j < width,
                forall|p: int|
                    0 <= p < submissions@.len() ==> (#[trigger] submissions@[p])@.len() == width,
                col@.len() == i,
                forall|k: int| 0 <= k < i ==> col@[k] == submissions@[k]@[j as int],
            decreases n - i,
        {
            col.push(submissions[i].values[j]);
            i = i + 1;
        }
        proof {
            assert(col@ =~= column(subs, j as int));
        }
        let med = median_value(col);
        medians.push(med);
        j = j + 1;
    }
    proof {
        assert(medians@ =~= median_values(subs, width as nat));
    }
    Result::Ok(Submission { values: medians })
}

} // verus!
