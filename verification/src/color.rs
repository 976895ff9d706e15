//! The color type that cells store.

use vstd::prelude::*;

verus! {

/// `ratatui_core::style::Color`, carried through as an opaque value: the
/// library stores colors and overwrites them, and never looks inside one.
#[verifier::external_type_specification]
#[verifier::external_body]
pub struct ExColor(ratatui_core::style::Color);

} // verus!
