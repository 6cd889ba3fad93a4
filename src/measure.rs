//! The timed-execution protocol: a number of warmup runs whose results are
//! discarded, then a number of measured runs.  A measured run that could be
//! spawned adds its wall-clock duration (nanoseconds) to the sample set,
//! whatever its exit status; one that could not be spawned adds nothing.
//!
//! The caller spawns and times the runs, strictly one after another, and
//! reports each outcome: `Some(elapsed)` or `None` when spawning failed.

use vstd::prelude::*;

verus! {

/// The durations of the runs that could be spawned, in order.
pub open spec fn spawned(outcomes: Seq<Option<u64>>) -> Seq<u64>
    decreases outcomes.len(),
{
    if outcomes.len() == 0 {
        Seq::empty()
    } else {
        let rest = spawned(outcomes.drop_last());
        match outcomes.last() {
            Some(d) => rest.push(d),
            None => rest,
        }
    }
}

proof fn lemma_all_spawned(outcomes: Seq<Option<u64>>)
    requires
        forall|i: int| 0 <= i < outcomes.len() ==> #[trigger] outcomes[i] is Some,
    ensures
        spawned(outcomes).len() == outcomes.len(),
    decreases outcomes.len(),
{
    if outcomes.len() > 0 {
        lemma_all_spawned(outcomes.drop_last());
    }
}

proof fn lemma_none_spawned(outcomes: Seq<Option<u64>>)
    requires
        forall|i: int| 0 <= i < outcomes.len() ==> #[trigger] outcomes[i] is None,
    ensures
        spawned(outcomes).len() == 0,
    decreases outcomes.len(),
{
    if outcomes.len() > 0 {
        lemma_none_spawned(outcomes.drop_last());
    }
}

/// A finished session in which every measured run could be spawned holds
/// one sample per measured run asked for.
pub proof fn lemma_finished_all_spawned(m: Measurement)
    requires
        m.wf(),
        m.measured_left == 0,
        forall|i: int| 0 <= i < m.outcomes@.len() ==> #[trigger] m.outcomes@[i] is Some,
    ensures
        m.samples@.len() == m.measured_runs,
{
    lemma_all_spawned(m.outcomes@);
}

/// A finished session in which no measured run could be spawned holds no
/// sample.
pub proof fn lemma_finished_none_spawned(m: Measurement)
    requires
        m.wf(),
        forall|i: int| 0 <= i < m.outcomes@.len() ==> #[trigger] m.outcomes@[i] is None,
    ensures
        m.samples@.len() == 0,
{
    lemma_none_spawned(m.outcomes@);
}

/// The kind of the next run.
#[derive(Clone, Copy, Debug, PartialEq, Eq, Structural)]
pub enum RunKind {
    Warmup,
    Measured,
}

/// One measurement session for one (benchmark, language) pair.
pub struct Measurement {
    /// The number of measured runs asked for.
    pub measured_runs: u32,
    pub warmup_left: u32,
    pub measured_left: u32,
    pub samples: Vec<u64>,
    /// The outcomes of the measured runs so far.
    pub outcomes: Ghost<Seq<Option<u64>>>,
}

impl Measurement {
    /// The samples are the durations of the measured runs that were
    /// spawned, and every measured run is either done or still to come.
    pub open spec fn wf(&self) -> bool {
        &&& self.samples@ == spawned(self.outcomes@)
        &&& self.outcomes@.len() + self.measured_left == self.measured_runs
    }

    /// A session of `warmup` discarded runs followed by `measured` timed ones.
    pub fn new(warmup: u32, measured: u32) -> (r: Measurement)
        ensures
            r.wf(),
            r.measured_runs == measured,
            r.warmup_left == warmup,
            r.measured_left == measured,
            r.outcomes@.len() == 0,
    {
        Measurement {
            measured_runs: measured,
            warmup_left: warmup,
            measured_left: measured,
            samples: Vec::new(),
            outcomes: Ghost(Seq::empty()),
        }
    }

    /// The kind of the next run: warmup runs come first; `None` once every
    /// run is done.
    pub fn next_run(&self) -> (r: Option<RunKind>)
        ensures
            r == (if self.warmup_left > 0 {
                Some(RunKind::Warmup)
            } else if self.measured_left > 0 {
                Some(RunKind::Measured)
            } else {
                None
            }),
    {
        if self.warmup_left > 0 {
            Some(RunKind::Warmup)
        } else if self.measured_left > 0 {
            Some(RunKind::Measured)
        } else {
            None
        }
    }

    /// Records the outcome of the run that `next_run` asked for: its
    /// duration when it could be spawned, `None` when it could not.
    pub fn record(&mut self, outcome: Option<u64>)
        requires
            old(self).wf(),
            old(self).warmup_left > 0 || old(self).measured_left > 0,
        ensures
            final(self).wf(),
            final(self).measured_runs == old(self).measured_runs,
            old(self).warmup_left > 0 ==> final(self).warmup_left == old(self).warmup_left - 1
                && final(self).measured_left == old(self).measured_left
                && final(self).outcomes@ == old(self).outcomes@
                && final(self).samples@ == old(self).samples@,
            old(self).warmup_left == 0 ==> final(self).warmup_left == 0
                && final(self).measured_left == old(self).measured_left - 1
                && final(self).outcomes@ == old(self).outcomes@.push(outcome)
                && final(self).samples@ == (match outcome {
                    Some(d) => old(self).samples@.push(d),
                    None => old(self).samples@,
                }),
    {
        if self.warmup_left > 0 {
            self.warmup_left = self.warmup_left - 1;
        } else {
            self.measured_left = self.measured_left - 1;
            proof {
                assert(self.outcomes@.push(outcome).drop_last() =~= self.outcomes@);
            }
            self.outcomes = Ghost(self.outcomes@.push(outcome));
            if let Some(d) = outcome {
                self.samples.push(d);
            }
        }
    }

    /// Ends the session and hands out its sample set, possibly empty.
    pub fn into_samples(self) -> (r: Vec<u64>)
        requires
            self.wf(),
        ensures
            r@ == spawned(self.outcomes@),
    {
        self.samples
    }
}

} // verus!
