//! Comparison of type-level naturals, with maximum and minimum computed
//! by trait resolution.

use vstd::prelude::*;
use crate::nat_type::{Inc, Nat, N0};

verus! {

/// A type-level ordering verdict.
pub trait Comparison {

}

/// The left number is smaller.
pub struct LessThan;

/// The left number is greater.
pub struct GreaterThan;

/// The numbers are equal.
pub struct Equal;

impl Comparison for LessThan {

}

impl Comparison for GreaterThan {

}

impl Comparison for Equal {

}

/// Type-level comparison: how `Self` relates to `T1`.
pub trait Cmp<T1: Nat> {
    type Result: Comparison;
}

impl Cmp<N0> for N0 {
    type Result = Equal;
}

impl<T: Nat> Cmp<N0> for Inc<T> {
    type Result = GreaterThan;
}

impl<T: Nat> Cmp<Inc<T>> for N0 {
    type Result = LessThan;
}

/// Two successors compare as their predecessors do.
impl<T1: Nat + Cmp<T2>, T2: Nat> Cmp<Inc<T2>> for Inc<T1> {
    type Result = <T1 as Cmp<T2>>::Result;
}

/// The larger of `Self` and `T1`.
pub trait Max<T1: Nat> {
    type Max: Nat;
}

impl<T: Nat + Cmp<T1>, T1: Nat> Max<T1> for T where (T, T1, <T as Cmp<T1>>::Result): InnerMax {
    type Max = <(T, T1, <T as Cmp<T1>>::Result) as InnerMax>::Result;
}

/// The smaller of `Self` and `T1`.
pub trait Min<T1: Nat> {
    type Min: Nat;
}

impl<T: Nat + Cmp<T1>, T1: Nat> Min<T1> for T where (T, T1, <T as Cmp<T1>>::Result): InnerMin {
    type Min = <(T, T1, <T as Cmp<T1>>::Result) as InnerMin>::Result;
}

/// Picks one of two numbers by a comparison verdict.  A separate trait,
/// because one blanket implementation per verdict over the pair would
/// conflict.
pub trait InnerMax {
    type Result: Nat;
}

impl<T1: Nat, T2: Nat> InnerMax for (T1, T2, LessThan) {
    type Result = T2;
}

impl<T1: Nat, T2: Nat> InnerMax for (T1, T2, Equal) {
    type Result = T1;
}

impl<T1: Nat, T2: Nat> InnerMax for (T1, T2, GreaterThan) {
    type Result = T1;
}

/// Picks the smaller of two numbers by a comparison verdict.
pub trait InnerMin {
    type Result: Nat;
}

impl<T1: Nat, T2: Nat> InnerMin for (T1, T2, LessThan) {
    type Result = T1;
}

impl<T1: Nat, T2: Nat> InnerMin for (T1, T2, Equal) {
    type Result = T1;
}

impl<T1: Nat, T2: Nat> InnerMin for (T1, T2, GreaterThan) {
    type Result = T2;
}

} // verus!
