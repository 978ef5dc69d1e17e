use vstd::prelude::*;

use crate::metric::Metric;

verus! {

/// User-adjustable parameters, read every cycle by both the poller and the
/// render loop and written by user interaction.
///
/// The fields are plain independent scalars: no cross-field atomicity is
/// promised, and a torn read across fields at worst costs one cycle of
/// display inconsistency — it can never corrupt the sample store, whose
/// `push` trims to whatever capacity it is handed.
#[derive(Clone, Copy, Debug, PartialEq, Eq, Structural)]
pub struct Config {
    /// Milliseconds the poller waits between sensor polls.
    pub poll_interval_ms: u64,
    /// Milliseconds the render loop sleeps between frames.
    pub render_interval_ms: u64,
    /// Most samples a metric's history may settle at.
    pub capacity: usize,
    /// Whether the processor metric is sampled and displayed.
    pub cpu_enabled: bool,
    /// Whether the graphics-card metric is sampled and displayed.
    pub gpu_enabled: bool,
}

impl Config {
    /// Whether `metric` is currently enabled.
    pub open spec fn enabled(self, metric: Metric) -> bool {
        match metric {
            Metric::Cpu => self.cpu_enabled,
            Metric::Gpu => self.gpu_enabled,
        }
    }

    /// A configuration with every field as given.
    pub fn new(
        poll_interval_ms: u64,
        render_interval_ms: u64,
        capacity: usize,
        cpu_enabled: bool,
        gpu_enabled: bool,
    ) -> (config: Self)
        ensures
            config == (Config {
                poll_interval_ms,
                render_interval_ms,
                capacity,
                cpu_enabled,
                gpu_enabled,
            }),
    {
        Config { poll_interval_ms, render_interval_ms, capacity, cpu_enabled, gpu_enabled }
    }

    /// Whether `metric` is currently enabled.
    pub fn is_enabled(&self, metric: Metric) -> (on: bool)
        ensures
            on == self.enabled(metric),
    {
        match metric {
            Metric::Cpu => self.cpu_enabled,
            Metric::Gpu => self.gpu_enabled,
        }
    }

    /// Enables or disables one metric, leaving every other field alone.
    pub fn set_enabled(&mut self, metric: Metric, on: bool)
        ensures
            final(self).enabled(metric) == on,
            forall|m: Metric| m != metric ==> final(self).enabled(m) == old(self).enabled(m),
            final(self).poll_interval_ms == old(self).poll_interval_ms,
            final(self).render_interval_ms == old(self).render_interval_ms,
            final(self).capacity == old(self).capacity,
    {
        match metric {
            Metric::Cpu => self.cpu_enabled = on,
            Metric::Gpu => self.gpu_enabled = on,
        }
    }
}

impl Default for Config {
    /// The startup configuration: poll every 500 ms, render every 12 ms,
    /// keep up to 600 samples per metric, both metrics enabled.
    fn default() -> (config: Self)
        ensures
            config == (Config {
                poll_interval_ms: 500u64,
                render_interval_ms: 12u64,
                capacity: 600usize,
                cpu_enabled: true,
                gpu_enabled: true,
            }),
    {
        Config {
            poll_interval_ms: 500,
            render_interval_ms: 12,
            capacity: 600,
            cpu_enabled: true,
            gpu_enabled: true,
        }
    }
}

} // verus!
