use vstd::prelude::*;

verus! {

/// The failure outcomes of parsing and frame derivation.
///
/// No error is retried or recovered internally; each one is surfaced to the
/// caller as a distinguishable value, never as a default or garbage result.
#[derive(Clone, Copy, Debug, PartialEq, Eq, Structural)]
pub enum AtlasError {
    /// A keyed value failed to parse as its expected numeric, tuple or
    /// enumerated shape. The whole parse is aborted; no partial model is
    /// returned.
    MalformedAttribute,
    /// The parser reached the impossible "region present without a page"
    /// state. This indicates a logic defect, not bad input.
    InvariantViolation,
    /// A frame query named a region that is absent from the derived mapping,
    /// or one with no recorded frames.
    UnknownRegion,
    /// A page with zero width or height has regions, so texture coordinates
    /// cannot be normalized against its dimensions.
    DegenerateGeometry,
}

} // verus!
