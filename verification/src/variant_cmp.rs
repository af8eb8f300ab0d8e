//! `==`, `<` and their kin on field values.
use crate::order::Order;
use crate::variant_value::VariantValue;
use std::cmp::Ordering;
use vstd::prelude::*;
use vstd::std_specs::cmp::{PartialEqSpecImpl, PartialOrdSpecImpl};

verus! {

/// The standard library's name for an order.
pub open spec fn ordering_of(order: Order) -> Ordering {
    match order {
        Order::Less => Ordering::Less,
        Order::Equal => Ordering::Equal,
        Order::Greater => Ordering::Greater,
    }
}

/// The standard library's name for an order.
pub fn to_ordering(order: Order) -> (r: Ordering)
    ensures
        r == ordering_of(order),
{
    match order {
        Order::Less => Ordering::Less,
        Order::Equal => Ordering::Equal,
        Order::Greater => Ordering::Greater,
    }
}

impl PartialEq for VariantValue {
    /// Whether both values are of one kind, neither list nor map, and have
    /// the same content.
    fn eq(&self, other: &VariantValue) -> (r: bool) {
        self.equals(other)
    }
}

impl PartialEqSpecImpl for VariantValue {
    open spec fn obeys_eq_spec() -> bool {
        true
    }

    open spec fn eq_spec(&self, other: &VariantValue) -> bool {
        self.spec_equal(other)
    }
}

impl Eq for VariantValue {

}

impl PartialOrd for VariantValue {
    /// The order of two values that have one, and nothing for the others.
    fn partial_cmp(&self, other: &VariantValue) -> (r: Option<Ordering>) {
        match self.order(other) {
            Some(order) => Some(to_ordering(order)),
            None => None,
        }
    }
}

impl PartialOrdSpecImpl for VariantValue {
    open spec fn obeys_partial_cmp_spec() -> bool {
        true
    }

    open spec fn partial_cmp_spec(&self, other: &VariantValue) -> Option<Ordering> {
        match self.spec_order(other) {
            Some(order) => Some(ordering_of(order)),
            None => None,
        }
    }
}

impl VariantValue {
    /// The order of two values that have one: values of one kind that is
    /// neither list nor map, and no NaN among them.
    pub fn cmp(&self, other: &VariantValue) -> (r: Ordering)
        requires
            self.spec_order(other) is Some,
        ensures
            self.spec_order(other) matches Some(order) && r == ordering_of(order),
    {
        match self.order(other) {
            Some(order) => to_ordering(order),
            None => Ordering::Equal,
        }
    }
}

} // verus!
