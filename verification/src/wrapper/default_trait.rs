//! A value that reads as the default of its type while it is missing.

use vstd::prelude::*;
use crate::wrapper::default_val::DefaultValue;

verus! {

/// Handles a missing value by returning the default of its type. In the
/// store the default of a type is bytes like any other default: the wrapper
/// is a [`DefaultValue`] that was given them.
pub type DefaultTrait<DS> = DefaultValue<DS>;

} // verus!
