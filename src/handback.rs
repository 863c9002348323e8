//! The same list routines, each handing the list back to its caller.
use vstd::prelude::*;
use crate::numbers::{
    div_toward_zero, products_fit, seq_product, seq_quotient, seq_sum, sums_fit, total,
    total_product,
};

verus! {

/// Adds up a list of integers; hands the list back.
pub fn sum(numbers: Vec<i64>) -> (r: (i64, Vec<i64>))
    requires
        sums_fit(numbers@),
    ensures
        r.0 == seq_sum(numbers@),
        r.1@ == numbers@,
{
    (total(&numbers), numbers)
}

/// Multiplies a list of integers together; hands the list back.
pub fn product(numbers: Vec<i64>) -> (r: (i64, Vec<i64>))
    requires
        products_fit(numbers@),
    ensures
        r.0 == seq_product(numbers@),
        r.1@ == numbers@,
{
    (total_product(&numbers), numbers)
}

/// The average of a non-empty list, rounded toward zero.
pub fn average(numbers: Vec<i64>) -> (r: i64)
    requires
        numbers@.len() > 0,
        numbers@.len() <= i64::MAX,
        sums_fit(numbers@),
    ensures
        r == div_toward_zero(seq_sum(numbers@), numbers@.len() as int),
{
    let length = numbers.len() as i64;
    let (num, _) = sum(numbers);
    num / length
}

/// One divided by each number in turn, rounding toward zero; hands the list
/// back.
pub fn division(numbers: Vec<i64>) -> (r: (i64, Vec<i64>))
    requires
        forall|i: int| 0 <= i < numbers@.len() ==> #[trigger] numbers@[i] != 0,
    ensures
        r.0 == seq_quotient(numbers@),
        r.1@ == numbers@,
{
    let mut total: i64 = 1;
    let mut i: usize = 0;
    assert(numbers@.take(0) =~= Seq::<i64>::empty());
    while i < numbers.len()
        invariant
            i <= numbers@.len(),
            forall|j: int| 0 <= j < numbers@.len() ==> #[trigger] numbers@[j] != 0,
            total == seq_quotient(numbers@.take(i as int)),
            -1 <= total <= 1,
        decreases numbers@.len() - i,
    {
        assert(numbers@.take(i + 1).drop_last() =~= numbers@.take(i as int));
        let d = numbers[i];
        assert(numbers@.take(i + 1).last() == d);
        let ghost q = div_toward_zero(total as int, d as int);
        assert(-1 <= q <= 1) by {
            assert(-1 <= 1int / (d as int) <= 1) by (nonlinear_arith)
                requires d != 0;
            assert(0int / (d as int) == 0) by (nonlinear_arith)
                requires d != 0;
        }
        total = total / d;
        assert(total == q);
        i = i + 1;
    }
    assert(numbers@.take(i as int) =~= numbers@);
    (total, numbers)
}

} // verus!
