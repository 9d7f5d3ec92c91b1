//! The error taxonomy of the engine.  Every error is recoverable by the
//! caller; no engine operation panics on validated input.

use vstd::prelude::*;

use crate::patterns::Category;

verus! {

/// Errors raised by the registry, the masker and the document walker.
#[derive(Clone, Copy, PartialEq, Eq, Structural, Debug)]
pub enum PiiError {
    /// The category is already present in the registry.
    DuplicateCategory(Category),
    /// The category is in neither the built-in nor the custom registry.
    UnknownCategory(Category),
    /// Externally supplied detections are unsorted, out of bounds, or share
    /// a byte offset.
    OverlappingDetections,
}

/// One violation found while validating configuration options.  Violations
/// are aggregated: building reports every one it finds, not just the first.
#[derive(Clone, Copy, PartialEq, Eq, Structural, Debug)]
pub enum ConfigIssue {
    /// `minimum_confidence` is above 100 (confidence is in hundredths).
    ConfidenceOutOfRange,
    /// An enabled category names a custom pattern the options do not carry.
    UnknownEnabledCategory(Category),
    /// A strategy override names a category the registry does not know.
    UnknownOverrideCategory(Category),
    /// The custom pattern at this index has an empty name.
    EmptyCustomName(usize),
    /// The custom pattern at this index has no items, or an item of length
    /// zero.
    EmptyCustomPattern(usize),
    /// More custom patterns than category identifiers can index.
    TooManyCustomPatterns,
}

} // verus!
