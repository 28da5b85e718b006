//! The shape-rebinding declaration.
use vstd::prelude::*;

verus! {

/// What a container holds, as a sequence in order. Every contract of the
/// mapping and application operations is stated over it.
pub trait Container<T> {
    /// The elements held, in order.
    spec fn items(&self) -> Seq<T>;
}

/// A container shape holding elements of type `T`, together with the
/// container type of the same shape that holds `U` instead.
///
/// The trait has no members but the two types: it is a declaration that the
/// mapping and application capabilities build on.
///
/// A borrowed slice, a `Vec` and a fixed-size array all rebind to `Vec`, as
/// a transformation may change ownership; an `Option` rebinds to `Option`.
/// Rebinding a rebound container at the same `U` gives the same type again.
pub trait Generic1<'r, T: 'r, U: 'r>: Container<T> + Sized {
    /// The element type that transformation functions receive.
    type Type;

    /// A borrowed view of an element.
    type Ref;

    /// The same shape, retargeted at `U`.
    type Rebind: Container<U>;
}

/// The content of an optional value: no element or exactly one.
pub open spec fn option_items<A>(o: Option<A>) -> Seq<A> {
    match o {
        Some(a) => seq![a],
        None => Seq::empty(),
    }
}

impl<'r, T> Container<T> for &'r [T] {
    open spec fn items(&self) -> Seq<T> {
        self@
    }
}

impl<T> Container<T> for Vec<T> {
    open spec fn items(&self) -> Seq<T> {
        self@
    }
}

impl<T, const N: usize> Container<T> for [T; N] {
    open spec fn items(&self) -> Seq<T> {
        self@
    }
}

impl<T> Container<T> for Option<T> {
    open spec fn items(&self) -> Seq<T> {
        option_items(*self)
    }
}

impl<'r, T: 'r, U: 'r> Generic1<'r, T, U> for &'r [T] {
    type Type = T;

    type Ref = &'r T;

    type Rebind = Vec<U>;
}

impl<'r, T: 'r, U: 'r> Generic1<'r, T, U> for Vec<T> {
    type Type = T;

    type Ref = &'r T;

    type Rebind = Vec<U>;
}

impl<'r, T: 'r, U: 'r, const N: usize> Generic1<'r, T, U> for [T; N] {
    type Type = T;

    type Ref = &'r T;

    type Rebind = Vec<U>;
}

impl<'r, T: 'r, U: 'r> Generic1<'r, T, U> for Option<T> {
    type Type = T;

    type Ref = &'r T;

    type Rebind = Option<U>;
}

} // verus!
