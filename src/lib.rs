//! Naming resolution and case transformation for fieldless enumerations.
//!
//! The library turns a structural description of an enum (its variant
//! identifiers and the directives attached to the type and to each variant)
//! into one canonical display string and a set of accepted aliases per
//! variant, and checks that no string is claimed by two variants.

pub mod directive;
pub mod format_case;
pub mod from_to_str;
pub mod inner;
pub mod not;
pub mod outer;
pub mod utils;
