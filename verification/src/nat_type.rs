//! Natural numbers at the type level: a zero type, a successor type, and
//! addition and multiplication computed entirely by trait resolution.

use vstd::prelude::*;
use core::marker::PhantomData;

verus! {

/// A type-level natural number.
pub trait Nat {

}

/// Zero, the base case of the recursion.
pub struct N0;

impl Nat for N0 {

}

/// The successor of `T`: a number `n` is `n` nested `Inc`s around `N0`.
pub struct Inc<T: Nat>(PhantomData<T>);

impl<T: Nat> Nat for Inc<T> {

}

/// Type-level addition: the sum of `Self` and `T` is `Self::Sum`.
pub trait Add<T: Nat> {
    type Sum: Nat;
}

/// Adding `T` to zero gives `T`.
impl<T: Nat> Add<T> for N0 {
    type Sum = T;
}

/// Adding `T` to a successor: unwind the `Inc`s until the zero base case
/// replaces the innermost `N0` with `T`.
impl<Inner: Nat + Add<T>, T: Nat> Add<T> for Inc<Inner> {
    type Sum = Inc<Inner::Sum>;
}

/// Type-level multiplication: the product of `Self` and `T` is
/// `Self::Prod`.
pub trait Mul<T: Nat> {
    type Prod: Nat;
}

/// Multiplying zero by anything gives zero.
impl<T: Nat> Mul<T> for N0 {
    type Prod = N0;
}

/// Multiplying a successor by `T`: add `T` once per unwound `Inc`.  The
/// bounds are recursive too, since the intermediate results must again
/// be addable and multipliable.
impl<Inner: Nat + Mul<T>, T: Nat> Mul<T> for Inc<Inner> where T: Add<<Inner as Mul<T>>::Prod> {
    type Prod = <T as Add<<Inner as Mul<T>>::Prod>>::Sum;
}

} // verus!
