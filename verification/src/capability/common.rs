//! The four capabilities that simulations use.

use vstd::prelude::*;
use crate::capability::{Capability, CapabilityCategory};
use crate::types::CapabilityId;

verus! {

/// General analysis and reasoning.
pub fn analysis() -> (c: Capability)
    ensures
        c.id.0 == CapabilityId::of_name("analysis"@),
        c.name@ == "analysis"@,
        c.category == CapabilityCategory::Analysis,
        c.description@ == "General analysis and reasoning"@,
{
    Capability::from_name("analysis", CapabilityCategory::Analysis).with_description(
        "General analysis and reasoning",
    )
}

/// Content generation and synthesis.
pub fn generation() -> (c: Capability)
    ensures
        c.id.0 == CapabilityId::of_name("generation"@),
        c.name@ == "generation"@,
        c.category == CapabilityCategory::Generation,
        c.description@ == "Content generation and synthesis"@,
{
    Capability::from_name("generation", CapabilityCategory::Generation).with_description(
        "Content generation and synthesis",
    )
}

/// Data transformation and conversion.
pub fn transformation() -> (c: Capability)
    ensures
        c.id.0 == CapabilityId::of_name("transformation"@),
        c.name@ == "transformation"@,
        c.category == CapabilityCategory::Transformation,
        c.description@ == "Data transformation and conversion"@,
{
    Capability::from_name("transformation", CapabilityCategory::Transformation).with_description(
        "Data transformation and conversion",
    )
}

/// Verification and validation.
pub fn validation() -> (c: Capability)
    ensures
        c.id.0 == CapabilityId::of_name("validation"@),
        c.name@ == "validation"@,
        c.category == CapabilityCategory::Validation,
        c.description@ == "Verification and validation"@,
{
    Capability::from_name("validation", CapabilityCategory::Validation).with_description(
        "Verification and validation",
    )
}

} // verus!
