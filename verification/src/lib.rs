//! Shape-preserving transformation and combination of containers.
//!
//! A container shape (borrowed slice, `Vec`, fixed-size array, `Option`)
//! declares once how it is retargeted at another element type
//! ([`Generic1`]); on top of that it can be mapped over ([`Functor`]) and
//! combined with functions or with a second container ([`Applicative`]).
pub mod generic;
pub mod functor;
pub mod applicative;

pub use crate::generic::{Container, Generic1};
pub use crate::functor::Functor;
pub use crate::applicative::Applicative;
