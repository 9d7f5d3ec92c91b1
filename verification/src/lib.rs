//! Detection and masking of personally identifiable information (PII)
//! in plain text and in structured, JSON-like documents.
//!
//! A caller builds an immutable [`config::Configuration`] once (validated,
//! with every violation aggregated), compiles it into a
//! [`detector::Detector`], and then scans any number of byte buffers with
//! [`detector::Detector::detect`].  Each scan yields a list of
//! [`detector::Detection`]s: byte-offset spans tagged with a PII category
//! and a confidence score, ordered by span, pairwise disjoint.
//! [`masking::mask`] splices a masked copy of the text around those spans,
//! one strategy per category; [`document::detect_document`] and
//! [`document::mask_document`] do the same over a structured document,
//! leaf by leaf.
#![verifier::loop_isolation(false)]

use vstd::prelude::*;

pub mod chars;
pub mod config;
pub mod detector;
pub mod document;
pub mod errors;
pub mod masking;
pub mod patterns;

pub use chars::CharClass;
pub use config::build;
pub use config::Configuration;
pub use config::CustomPattern;
pub use config::Options;
pub use config::Registry;
pub use config::StrategyOverride;
pub use detector::detection_value;
pub use detector::Detection;
pub use detector::Detector;
pub use document::detect_document;
pub use document::mask_document;
pub use document::DocDetection;
pub use document::DocEntry;
pub use document::DocNode;
pub use errors::ConfigIssue;
pub use errors::PiiError;
pub use masking::mask;
pub use patterns::Category;
pub use patterns::MaskStrategy;
pub use patterns::PatItem;
pub use patterns::PatternRule;

verus! {

} // verus!
