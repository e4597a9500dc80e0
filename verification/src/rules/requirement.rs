//! The requirement-reference rule: delegates to the identically-named
//! top-level requirement of the area.

use vstd::prelude::*;

verus! {

/// A reference to a named top-level requirement. An optional reference
/// to an unknown name is skipped; a mandatory one is a data-integrity
/// error.
#[derive(Debug, Clone)]
pub struct RequirementRule {
    pub requirement: String,
    pub optional: bool,
}

} // verus!
