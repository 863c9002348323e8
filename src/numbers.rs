//! Sums, products and averages over lists of integers.
use vstd::prelude::*;

verus! {

/// The sum of a list, added from the front.
pub open spec fn seq_sum(s: Seq<i64>) -> int
    decreases s.len(),
{
    if s.len() == 0 {
        0
    } else {
        seq_sum(s.drop_last()) + s.last()
    }
}

/// The product of a list, multiplied from the front.
pub open spec fn seq_product(s: Seq<i64>) -> int
    decreases s.len(),
{
    if s.len() == 0 {
        1
    } else {
        seq_product(s.drop_last()) * s.last()
    }
}

/// Integer division that rounds toward zero (the spec `/` divides with a
/// remainder that is never negative; the two agree where `a` is not negative).
pub open spec fn div_toward_zero(a: int, b: int) -> int {
    if a >= 0 {
        a / b
    } else {
        -((-a) / b)
    }
}

/// One divided by each item of a list in turn, rounding toward zero.
pub open spec fn seq_quotient(s: Seq<i64>) -> int
    decreases s.len(),
{
    if s.len() == 0 {
        1
    } else {
        div_toward_zero(seq_quotient(s.drop_last()), s.last() as int)
    }
}

/// Every running sum of the list fits in an `i64`.
pub open spec fn sums_fit(s: Seq<i64>) -> bool {
    forall|k: int| 0 <= k <= s.len() ==> i64::MIN <= #[trigger] seq_sum(s.take(k)) <= i64::MAX
}

/// Every running product of the list fits in an `i64`.
pub open spec fn products_fit(s: Seq<i64>) -> bool {
    forall|k: int| 0 <= k <= s.len() ==> i64::MIN <= #[trigger] seq_product(s.take(k)) <= i64::MAX
}

/// Adds up a list of integers.
pub fn sum(numbers: Vec<i64>) -> (r: i64)
    requires
        sums_fit(numbers@),
    ensures
        r == seq_sum(numbers@),
{
    total(&numbers)
}

/// Adds up a list of integers, from the front.
pub(crate) fn total(numbers: &Vec<i64>) -> (r: i64)
    requires
        sums_fit(numbers@),
    ensures
        r == seq_sum(numbers@),
{
    let mut total: i64 = 0;
    let mut i: usize = 0;
    assert(numbers@.take(0) =~= Seq::<i64>::empty());
    while i < numbers.len()
        invariant
            i <= numbers@.len(),
            sums_fit(numbers@),
            total == seq_sum(numbers@.take(i as int)),
        decreases numbers@.len() - i,
    {
        assert(numbers@.take(i + 1).drop_last() =~= numbers@.take(i as int));
        assert(i64::MIN <= seq_sum(numbers@.take(i + 1)) <= i64::MAX);
        total = total + numbers[i];
        i = i + 1;
    }
    assert(numbers@.take(i as int) =~= numbers@);
    total
}

/// Multiplies a list of integers together.
pub fn product(numbers: Vec<i64>) -> (r: i64)
    requires
        products_fit(numbers@),
    ensures
        r == seq_product(numbers@),
{
    total_product(&numbers)
}

/// Multiplies a list of integers together, from the front.
pub(crate) fn total_product(numbers: &Vec<i64>) -> (r: i64)
    requires
        products_fit(numbers@),
    ensures
        r == seq_product(numbers@),
{
    let mut total: i64 = 1;
    let mut i: usize = 0;
    assert(numbers@.take(0) =~= Seq::<i64>::empty());
    while i < numbers.len()
        invariant
            i <= numbers@.len(),
            products_fit(numbers@),
            total == seq_product(numbers@.take(i as int)),
        decreases numbers@.len() - i,
    {
        assert(numbers@.take(i + 1).drop_last() =~= numbers@.take(i as int));
        assert(i64::MIN <= seq_product(numbers@.take(i + 1)) <= i64::MAX);
        total = total * numbers[i];
        i = i + 1;
    }
    assert(numbers@.take(i as int) =~= numbers@);
    total
}

/// The average of a non-empty list, rounded toward zero.
pub fn average(numbers: Vec<i64>) -> (r: i64)
    requires
        numbers@.len() > 0,
        numbers@.len() <= i64::MAX,
        sums_fit(numbers@),
    ensures
        r == div_toward_zero(seq_sum(numbers@), numbers@.len() as int),
{
    let length = numbers.len() as i64;
    let total = sum(numbers);
    total / length
}

/// Hands both lists back as they came; cutting each to its first three
/// numbers is left as an exercise.
pub fn first_three(numbers1: Vec<i64>, numbers2: Vec<i64>) -> (r: (Vec<i64>, Vec<i64>))
    ensures
        r.0@ == numbers1@,
        r.1@ == numbers2@,
{
    (numbers1, numbers2)
}

} // verus!
