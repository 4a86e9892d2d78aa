//! Conditions that the checks and the resolvers report. None of them stops
//! the run: they are handed back to the caller, who decides what to do.
use vstd::prelude::*;

verus! {

#[derive(Clone, Copy, Debug, PartialEq, Eq, Structural)]
pub enum Severity {
    Info,
    Warning,
    Error,
}

/// A reported condition. Instances are given by their position in the
/// instance list, connections by their position in an instance's connection
/// list, templates and their ports by their positions.
#[derive(Clone, Copy, Debug, PartialEq, Eq, Structural)]
pub enum Diagnostic {
    /// The instance's explicit identifier was already claimed in its
    /// (template, mode) bucket by an earlier instance.
    DuplicateId { instance: usize },
    /// Every `u32` identifier of the instance's bucket is taken, which takes
    /// more than 2^32 instances.
    IdsExhausted { instance: usize },
    /// No template carries the instance's template name.
    UnknownTemplate { instance: usize },
    /// The instance has fewer connections than its template has ports.
    FewerConnections { instance: usize, declared: usize, connected: usize },
    /// The instance has more connections than its template has ports.
    MoreConnections { instance: usize, declared: usize, connected: usize },
    /// A connection names a port that the hardware module does not have.
    UnknownHardwarePort { instance: usize, connection: usize },
    /// A connection names a hardware port that an earlier connection claimed.
    AlreadyConnected { instance: usize, connection: usize },
    /// An instance implies a direction for a template port that differs from
    /// the one recorded from an earlier instance.
    DirectionMismatch { vip: usize, port: usize, instance: usize },
    /// No instance gave a direction to the template port.
    DirectionNotSet { vip: usize, port: usize },
}

pub open spec fn severity_of(d: Diagnostic) -> Severity {
    match d {
        Diagnostic::UnknownTemplate { .. } => Severity::Warning,
        Diagnostic::FewerConnections { .. } => Severity::Warning,
        Diagnostic::DirectionNotSet { .. } => Severity::Warning,
        _ => Severity::Error,
    }
}

impl Diagnostic {
    pub fn severity(&self) -> (r: Severity)
        ensures
            r == severity_of(*self),
    {
        match self {
            Diagnostic::UnknownTemplate { .. } => Severity::Warning,
            Diagnostic::FewerConnections { .. } => Severity::Warning,
            Diagnostic::DirectionNotSet { .. } => Severity::Warning,
            _ => Severity::Error,
        }
    }
}

} // verus!
