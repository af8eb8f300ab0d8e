//! How two values of one kind are ordered.
use crate::float_bits::{
    double_is_finite, double_is_nan, double_magnitude_of, double_of_single, double_rank,
    double_rank_of, lemma_widening_keeps_kind, lemma_widening_keeps_rank_order, single_is_finite,
    single_is_nan, single_magnitude_of, single_rank, single_rank_of, DOUBLE_INFINITY,
    SINGLE_INFINITY,
};
use vstd::prelude::*;
use vstd::string::StringSliceAdditionalSpecFns;

verus! {

/// The place of one value relative to another.
#[derive(Debug, Clone, Copy, PartialEq, Eq, Structural)]
pub enum Order {
    Less,
    Equal,
    Greater,
}

/// The order of two integers.
pub open spec fn int_order(a: int, b: int) -> Order {
    if a < b {
        Order::Less
    } else if a == b {
        Order::Equal
    } else {
        Order::Greater
    }
}

/// The order of two byte strings: that of the bytes at the first index where
/// they differ, and where one is the beginning of the other, the shorter one
/// first.
pub open spec fn lex_order(a: Seq<u8>, b: Seq<u8>) -> Order
    decreases a.len(),
{
    if a.len() == 0 || b.len() == 0 {
        int_order(a.len() as int, b.len() as int)
    } else if a[0] != b[0] {
        int_order(a[0] as int, b[0] as int)
    } else {
        lex_order(a.drop_first(), b.drop_first())
    }
}

/// The order of two single-precision values given by their bit patterns, or
/// nothing where one of them is a NaN. Negative zero and zero are equal.
pub open spec fn single_order(a: u32, b: u32) -> Option<Order> {
    if single_is_nan(a) || single_is_nan(b) {
        None
    } else {
        Some(int_order(single_rank(a), single_rank(b)))
    }
}

/// The order of two double-precision values given by their bit patterns, or
/// nothing where one of them is a NaN. Negative zero and zero are equal.
pub open spec fn double_order(a: u64, b: u64) -> Option<Order> {
    if double_is_nan(a) || double_is_nan(b) {
        None
    } else {
        Some(int_order(double_rank(a), double_rank(b)))
    }
}

/// The order seen from the other side.
pub open spec fn flip(order: Order) -> Order {
    match order {
        Order::Less => Order::Greater,
        Order::Equal => Order::Equal,
        Order::Greater => Order::Less,
    }
}

/// One order after another, as a chain of comparisons gives it: nothing
/// where they point in opposite directions.
pub open spec fn chain(first: Order, second: Order) -> Option<Order> {
    if first == Order::Equal {
        Some(second)
    } else if second == Order::Equal || second == first {
        Some(first)
    } else {
        None
    }
}

/// Byte strings are ordered both ways alike: seen from the other side the
/// order is the opposite one.
pub proof fn lemma_lex_order_flips(a: Seq<u8>, b: Seq<u8>)
    ensures
        lex_order(b, a) == flip(lex_order(a, b)),
    decreases a.len(),
{
    if a.len() != 0 && b.len() != 0 && a[0] == b[0] {
        lemma_lex_order_flips(a.drop_first(), b.drop_first());
    }
}

/// Byte strings are in equal order only where they are the same.
pub proof fn lemma_lex_order_equal(a: Seq<u8>, b: Seq<u8>)
    ensures
        lex_order(a, b) == Order::Equal <==> a == b,
    decreases a.len(),
{
    if a.len() != 0 && b.len() != 0 && a[0] == b[0] {
        lemma_lex_order_equal(a.drop_first(), b.drop_first());
        if a.drop_first() == b.drop_first() {
            assert(a =~= seq![a[0]] + a.drop_first());
            assert(b =~= seq![b[0]] + b.drop_first());
        }
    } else if a.len() == 0 && b.len() == 0 {
        assert(a =~= b);
    }
}

/// The order of byte strings carries over: from `a` to `b` and from `b` to
/// `c` in one direction, it is the order from `a` to `c`.
pub proof fn lemma_lex_order_chains(a: Seq<u8>, b: Seq<u8>, c: Seq<u8>)
    requires
        chain(lex_order(a, b), lex_order(b, c)) is Some,
    ensures
        Some(lex_order(a, c)) == chain(lex_order(a, b), lex_order(b, c)),
    decreases a.len(),
{
    if a.len() != 0 && b.len() != 0 && c.len() != 0 && a[0] == b[0] && b[0] == c[0] {
        lemma_lex_order_chains(a.drop_first(), b.drop_first(), c.drop_first());
    }
}

/// Widening keeps finiteness and order: the doubles of two finite
/// single-precision values are finite and ordered as the values are.
pub proof fn lemma_widening_keeps_order(a: u32, b: u32)
    requires
        single_is_finite(a),
        single_is_finite(b),
    ensures
        double_is_finite(double_of_single(a)),
        double_is_finite(double_of_single(b)),
        double_order(double_of_single(a), double_of_single(b)) == single_order(a, b),
{
    lemma_widening_keeps_kind(a);
    lemma_widening_keeps_kind(b);
    lemma_widening_keeps_rank_order(a, b);
}

/// Orders two numbers.
pub fn order_i128(a: i128, b: i128) -> (order: Order)
    ensures
        order == int_order(a as int, b as int),
{
    if a < b {
        Order::Less
    } else if a == b {
        Order::Equal
    } else {
        Order::Greater
    }
}

/// Orders two single-precision values given by their bit patterns.
pub fn order_single(a: u32, b: u32) -> (order: Option<Order>)
    ensures
        order == single_order(a, b),
{
    if single_magnitude_of(a) > SINGLE_INFINITY || single_magnitude_of(b) > SINGLE_INFINITY {
        None
    } else {
        Some(order_i128(single_rank_of(a) as i128, single_rank_of(b) as i128))
    }
}

/// Orders two double-precision values given by their bit patterns.
pub fn order_double(a: u64, b: u64) -> (order: Option<Order>)
    ensures
        order == double_order(a, b),
{
    if double_magnitude_of(a) > DOUBLE_INFINITY || double_magnitude_of(b) > DOUBLE_INFINITY {
        None
    } else {
        Some(order_i128(double_rank_of(a), double_rank_of(b)))
    }
}

/// Dropping a common beginning does not change the order.
proof fn lemma_lex_order_skips_common_prefix(a: Seq<u8>, b: Seq<u8>, n: int)
    requires
        0 <= n <= a.len(),
        n <= b.len(),
        a.take(n) == b.take(n),
    ensures
        lex_order(a, b) == lex_order(a.skip(n), b.skip(n)),
    decreases n,
{
    if n > 0 {
        assert(a[0] == a.take(n)[0]);
        assert(b[0] == b.take(n)[0]);
        let a1 = a.drop_first();
        let b1 = b.drop_first();
        assert(a1.take(n - 1) == a.take(n).drop_first());
        assert(b1.take(n - 1) == b.take(n).drop_first());
        lemma_lex_order_skips_common_prefix(a1, b1, n - 1);
        assert(a1.skip(n - 1) == a.skip(n));
        assert(b1.skip(n - 1) == b.skip(n));
    } else {
        assert(a.skip(0) == a);
        assert(b.skip(0) == b);
    }
}

/// Orders two byte strings.
pub fn order_bytes(a: &[u8], b: &[u8]) -> (order: Order)
    ensures
        order == lex_order(a@, b@),
{
    let mut i: usize = 0;
    while i < a.len() && i < b.len()
        invariant
            i <= a.len(),
            i <= b.len(),
            a@.take(i as int) == b@.take(i as int),
        decreases a.len() - i,
    {
        if a[i] != b[i] {
            proof {
                lemma_lex_order_skips_common_prefix(a@, b@, i as int);
            }
            return order_i128(a[i] as i128, b[i] as i128);
        }
        proof {
            assert(a@.take(i + 1) == a@.take(i as int).push(a@[i as int]));
            assert(b@.take(i + 1) == b@.take(i as int).push(b@[i as int]));
        }
        i += 1;
    }
    proof {
        lemma_lex_order_skips_common_prefix(a@, b@, i as int);
    }
    order_i128(a.len() as i128, b.len() as i128)
}

/// Orders two texts by their UTF-8 encodings, which is the order of their
/// characters' code points.
pub fn order_text(a: &str, b: &str) -> (order: Order)
    ensures
        order == lex_order(a.spec_bytes(), b.spec_bytes()),
{
    order_bytes(a.as_bytes(), b.as_bytes())
}

} // verus!
