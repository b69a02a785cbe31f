//! What can be asked of detection.
use vstd::prelude::*;
use vstd::string::*;

use crate::a11y::target::{Frame, Provenance};
use crate::a11y::verify::Claim;
use crate::free::Nanos;

verus! {

/// A measurement attached to whatever produced it.
#[derive(Debug)]
pub struct Timed<T> {
    pub value: T,
    pub elapsed: Nanos,
}

#[derive(Debug)]
pub enum Request {
    /// The window everything else is scoped to.
    FocusedFrame,
    /// A window picked by name. For trying things out.
    NamedFrame(String),
    /// The window the compositor says is focused.
    CompositorFrame { title: String, pid: u32, size: (i32, i32) },
    /// Re-check one target immediately before it is clicked.
    Verify { frame: Frame, claim: Claim },
    /// Warm the mirror for one window, off the hotkey path.
    Warm(Frame),
    /// What the mirror currently holds.
    MirrorStats,
    /// Actionable nodes and their parents, for diagnosing an empty result.
    MirrorNodes { bus_name: String, limit: usize },
    /// Everything clickable in one window. `force` overrides the probe.
    Targets { frame: Frame, force: Option<Provenance>, metadata: bool },
}

impl Request {
    /// A short name for error messages, so that a stalled request says
    /// *which* one stalled.
    pub fn name(&self) -> (s: &'static str)
        ensures
            s@ == match self {
                Request::FocusedFrame => "focused frame"@,
                Request::NamedFrame(_) => "named frame"@,
                Request::CompositorFrame { .. } => "compositor frame"@,
                Request::Verify { .. } => "validate-at-action"@,
                Request::Warm(_) => "warm mirror"@,
                Request::MirrorStats => "mirror stats"@,
                Request::MirrorNodes { .. } => "mirror nodes"@,
                Request::Targets { .. } => "targets"@,
            },
    {
        match self {
            Request::FocusedFrame => "focused frame",
            Request::NamedFrame(_) => "named frame",
            Request::CompositorFrame { .. } => "compositor frame",
            Request::Verify { .. } => "validate-at-action",
            Request::Warm(_) => "warm mirror",
            Request::MirrorStats => "mirror stats",
            Request::MirrorNodes { .. } => "mirror nodes",
            Request::Targets { .. } => "targets",
        }
    }
}

} // verus!
