use vstd::prelude::*;

use crate::metric::Metric;

verus! {

/// What remains of the history `s` once the oldest entries are evicted so
/// that at most `cap` remain: the most recent `min(cap, s.len())` entries,
/// in arrival order.
pub open spec fn trim_front(s: Seq<u32>, cap: nat) -> Seq<u32> {
    if s.len() <= cap {
        s
    } else {
        s.skip(s.len() - cap)
    }
}

/// The history after appending `v` and evicting from the front down to `cap`.
pub open spec fn bounded_push(s: Seq<u32>, v: u32, cap: nat) -> Seq<u32> {
    trim_front(s.push(v), cap)
}

/// Bounded rolling history of samples, one sequence per metric.
///
/// A sample is an opaque 32-bit word: the sensor layer picks the encoding of
/// its Celsius reading (the store never interprets it). Each sequence is in
/// arrival order, oldest first, and is trimmed on every push to the capacity
/// the caller passes, so it never settles above that capacity.
pub struct SampleStore {
    /// Processor samples, oldest first.
    pub cpu_samples: Vec<u32>,
    /// Graphics-card samples, oldest first.
    pub gpu_samples: Vec<u32>,
}

impl SampleStore {
    /// The stored history of one metric.
    pub open spec fn series(self, metric: Metric) -> Seq<u32> {
        match metric {
            Metric::Cpu => self.cpu_samples@,
            Metric::Gpu => self.gpu_samples@,
        }
    }

    /// An empty store: no metric has any history yet.
    pub fn new() -> (store: Self)
        ensures
            forall|m: Metric| store.series(m) == Seq::<u32>::empty(),
    {
        SampleStore { cpu_samples: Vec::new(), gpu_samples: Vec::new() }
    }

    /// Appends `value` to `metric`'s history, then evicts from the front
    /// until at most `capacity` samples remain. Always succeeds; the other
    /// metric's history is untouched.
    pub fn push(&mut self, metric: Metric, value: u32, capacity: usize)
        ensures
            final(self).series(metric) == bounded_push(
                old(self).series(metric),
                value,
                capacity as nat,
            ),
            forall|m: Metric| m != metric ==> final(self).series(m) == old(self).series(m),
    {
        match metric {
            Metric::Cpu => push_and_trim(&mut self.cpu_samples, value, capacity),
            Metric::Gpu => push_and_trim(&mut self.gpu_samples, value, capacity),
        }
    }

    /// A copy of `metric`'s current history, for the render loop. The copy is
    /// exactly the history at the moment of the call: later pushes cannot
    /// reach into it.
    pub fn snapshot(&self, metric: Metric) -> (samples: Vec<u32>)
        ensures
            samples@ == self.series(metric),
    {
        match metric {
            Metric::Cpu => self.cpu_samples.clone(),
            Metric::Gpu => self.gpu_samples.clone(),
        }
    }

    /// Whether `metric` has enough history to draw a line: at least two
    /// points. Below that the renderer shows an empty placeholder series.
    pub fn is_ready(&self, metric: Metric) -> (ready: bool)
        ensures
            ready == (self.series(metric).len() >= 2),
    {
        match metric {
            Metric::Cpu => self.cpu_samples.len() >= 2,
            Metric::Gpu => self.gpu_samples.len() >= 2,
        }
    }

    /// How many samples `metric` currently holds.
    pub fn sample_count(&self, metric: Metric) -> (count: usize)
        ensures
            count == self.series(metric).len(),
    {
        match metric {
            Metric::Cpu => self.cpu_samples.len(),
            Metric::Gpu => self.gpu_samples.len(),
        }
    }
}

/// How long a trimmed history is: everything when it fits, `cap` otherwise.
pub proof fn lemma_trim_front_len(s: Seq<u32>, cap: nat)
    ensures
        trim_front(s, cap).len() == if s.len() <= cap {
            s.len()
        } else {
            cap
        },
        trim_front(s, cap).len() <= cap,
{
}

/// Law (snapshot isolation, store side): whatever has been pushed, the
/// retained history is a suffix of it — a snapshot, being an exact copy of
/// the retained history, can hold only samples already pushed when it was
/// taken, and `lemma_trim_front_len` bounds it by the capacity. Which side
/// of a concurrent push a reader sees is the embedding's lock discipline;
/// either side obeys this law.
pub proof fn lemma_trim_front_is_suffix(s: Seq<u32>, cap: nat)
    ensures
        forall|i: int|
            0 <= i < trim_front(s, cap).len() ==> trim_front(s, cap)[i] == s[s.len() - trim_front(
                s,
                cap,
            ).len() + i],
{
}

/// Law (bounded buffer, one step): a store that holds the retained part of
/// the push history `history`, after one more push, holds the retained part
/// of `history.push(v)` — and so never settles above `cap` samples.
pub proof fn lemma_push_retains_history(history: Seq<u32>, v: u32, cap: nat)
    ensures
        bounded_push(trim_front(history, cap), v, cap) == trim_front(history.push(v), cap),
        trim_front(history.push(v), cap).len() <= cap,
{
    assert(bounded_push(trim_front(history, cap), v, cap) =~= trim_front(history.push(v), cap));
}

/// The store contents after replaying `values` push by push onto `init`,
/// each push trimmed to `cap`.
pub open spec fn replay_pushes(init: Seq<u32>, values: Seq<u32>, cap: nat) -> Seq<u32>
    decreases values.len(),
{
    if values.len() == 0 {
        init
    } else {
        replay_pushes(bounded_push(init, values[0], cap), values.skip(1), cap)
    }
}

/// Law (bounded buffer, general): replaying any further pushes onto the
/// retained part of a history yields the retained part of the whole history.
pub proof fn lemma_replay_from_history(history: Seq<u32>, values: Seq<u32>, cap: nat)
    ensures
        replay_pushes(trim_front(history, cap), values, cap) == trim_front(history + values, cap),
    decreases values.len(),
{
    if values.len() == 0 {
        assert(history + values =~= history);
    } else {
        lemma_push_retains_history(history, values[0], cap);
        lemma_replay_from_history(history.push(values[0]), values.skip(1), cap);
        assert(history.push(values[0]) + values.skip(1) =~= history + values);
    }
}

/// Law (bounded buffer): starting from an empty store, after any sequence of
/// pushes the store holds exactly the most recent `min(cap, total)` of the
/// pushed values, in arrival order — in particular never more than `cap`.
pub proof fn lemma_replay_is_retained_history(values: Seq<u32>, cap: nat)
    ensures
        replay_pushes(Seq::<u32>::empty(), values, cap) == trim_front(values, cap),
        replay_pushes(Seq::<u32>::empty(), values, cap).len() <= cap,
{
    lemma_replay_from_history(Seq::<u32>::empty(), values, cap);
    assert(Seq::<u32>::empty() + values =~= values);
    lemma_trim_front_len(values, cap);
}

/// Law (eviction): once at least `cap` values have been pushed, exactly the
/// last `cap` of them remain, oldest first.
pub proof fn lemma_eviction_keeps_last_capacity(values: Seq<u32>, cap: nat)
    requires
        values.len() >= cap,
    ensures
        trim_front(values, cap).len() == cap,
        forall|i: int|
            0 <= i < cap ==> trim_front(values, cap)[i] == values[values.len() - cap + i],
{
}

/// Appends `value`, then removes from the front while more than `capacity`
/// samples remain, so the history settles at most `capacity` long.
fn push_and_trim(samples: &mut Vec<u32>, value: u32, capacity: usize)
    ensures
        final(samples)@ == bounded_push(old(samples)@, value, capacity as nat),
{
    samples.push(value);
    let ghost target: Seq<u32> = trim_front(samples@, capacity as nat);
    while samples.len() > capacity
        invariant
            trim_front(samples@, capacity as nat) == target,
        decreases samples.len(),
    {
        let ghost pre = samples@;
        samples.remove(0);
        proof {
            assert(samples@ =~= pre.skip(1));
            assert(trim_front(samples@, capacity as nat) =~= trim_front(pre, capacity as nat));
        }
    }
}

} // verus!
