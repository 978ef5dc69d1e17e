use vstd::prelude::*;

verus! {

/// Names one of the time-series the monitor samples.
///
/// The fixed set matches the two sensors this monitor polls; everything that
/// handles a `Metric` does so by exhaustive match, so the store and the
/// poller carry over unchanged if more metrics are added.
#[derive(Clone, Copy, Debug, PartialEq, Eq, Structural)]
pub enum Metric {
    /// Processor temperature.
    Cpu,
    /// Graphics-card temperature.
    Gpu,
}

} // verus!
