//! Per-gadget timing of the sumcheck combinator. This build keeps timing off:
//! [`timer`] returns a zero-sized guard and [`print_and_reset`] does nothing,
//! so the instrumentation costs nothing at its call sites.
use vstd::prelude::*;

verus! {

/// The concrete kind of a sumcheck gadget, used as the key of the profile.
#[derive(Clone, Copy, Debug, PartialEq, Eq, Hash)]
pub enum GadgetKind {
    Linear,
    Product,
    Diff,
    Sum,
    Selector,
    Combiner,
    RingToField,
    Unknown,
}

impl GadgetKind {
    /// The gadget's display name.
    pub fn name(self) -> (r: &'static str)
        ensures
            r@ == match self {
                GadgetKind::Linear => "LinearSumcheck"@,
                GadgetKind::Product => "ProductSumcheck"@,
                GadgetKind::Diff => "DiffSumcheck"@,
                GadgetKind::Sum => "SumSumcheck"@,
                GadgetKind::Selector => "SelectorEq"@,
                GadgetKind::Combiner => "Combiner"@,
                GadgetKind::RingToField => "RingToFieldCombiner"@,
                GadgetKind::Unknown => "unknown"@,
            },
    {
        match self {
            GadgetKind::Linear => "LinearSumcheck",
            GadgetKind::Product => "ProductSumcheck",
            GadgetKind::Diff => "DiffSumcheck",
            GadgetKind::Sum => "SumSumcheck",
            GadgetKind::Selector => "SelectorEq",
            GadgetKind::Combiner => "Combiner",
            GadgetKind::RingToField => "RingToFieldCombiner",
            GadgetKind::Unknown => "unknown",
        }
    }

    /// Container gadgets delegate to children whose time is recorded
    /// separately, so their own time overlaps the leaves' total.
    pub fn is_container(self) -> (r: bool)
        ensures
            r == (self == GadgetKind::Combiner || self == GadgetKind::RingToField || self
                == GadgetKind::Diff),
    {
        match self {
            GadgetKind::Combiner | GadgetKind::RingToField | GadgetKind::Diff => true,
            _ => false,
        }
    }
}

/// The timing guard; zero-sized while timing is off.
pub struct Guard;

/// Starts timing a gadget of kind `kind` (nothing is recorded in this build).
pub fn timer(kind: GadgetKind) -> (r: Guard) {
    Guard
}

/// Prints the round's breakdown and clears it (nothing is recorded in this
/// build, so there is nothing to print).
pub fn print_and_reset(label: &str) {
}

} // verus!
