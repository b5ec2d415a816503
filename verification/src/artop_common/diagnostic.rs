//! Severity levels for diagnostics.
use vstd::prelude::*;

verus! {

/// Severity of a diagnostic message.
#[derive(Debug, Clone, Copy, PartialEq, Eq)]
pub enum Severity {
    /// Informational.
    Info,
    /// A potential problem.
    Warning,
    /// A definite problem.
    Error,
    /// A fatal problem.
    Fatal,
}

} // verus!
