//! A static analyzer for infrastructure templates: it resolves a restricted
//! intrinsic-function language, merges rule configuration across deployment
//! environments, evaluates cost- and operability-related checks over the
//! resolved resources, and anchors each finding to a source line.
pub mod checker;
pub mod error_reporter;
pub mod parsers;
pub mod rules;
