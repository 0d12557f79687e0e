//! An on-demand selection menu: a fuzzy-matched, capped list of entries with a
//! keyboard cursor and a bounded selection, laid out by a declarative tree whose
//! nodes take their look from a cascade of style rules.

pub mod app;
pub mod callback;
pub mod cli;
pub mod config;
pub mod item;
pub mod layout;
pub mod matcher;

use vstd::prelude::*;

verus! {

/// Types that can list the names of their fields or variants.
pub trait Reflective {
    /// The names, in declaration order.
    spec fn attr_names() -> Seq<Seq<char>>;

    fn reflect_attr_names() -> (r: Vec<&'static str>)
        ensures
            r@.map_values(|s: &'static str| s@) == Self::attr_names(),
    ;
}

/// Field-wise override: every field that `other` sets replaces the field of
/// `self`; fields that `other` leaves unset keep their value.
pub trait UpdateFromOther: Sized {
    /// What `self` becomes when `other` is applied to it.
    spec fn updated_by(&self, other: &Self) -> Self;

    fn update_from(&mut self, other: &Self)
        ensures
            *final(self) == old(self).updated_by(other),
    ;
}

} // verus!
