//! Per-agent execution state: the status and result recorded for each plan
//! step. Newer records shadow older ones, so a lookup sees the latest write.

use vstd::prelude::*;

use crate::types::StepStatus;

verus! {

/// The outcome of one executed step.
#[derive(Debug)]
pub struct StepResult {
    pub output: String,
    pub success: bool,
}

/// Ghost form of [`StepResult`].
pub struct StepResultView {
    pub output: Seq<char>,
    pub success: bool,
}

impl View for StepResult {
    type V = StepResultView;

    open spec fn view(&self) -> StepResultView {
        StepResultView { output: self.output@, success: self.success }
    }
}

/// What an agent remembers about its plan steps.
#[derive(Debug)]
pub struct AgentState {
    status_log: Vec<(usize, StepStatus)>,
    result_log: Vec<(usize, StepResult)>,
}

/// The first status recorded for a step, scanning newest first.
pub open spec fn status_lookup(s: Seq<(int, StepStatus)>, step_id: int) -> Option<StepStatus>
    decreases s.len(),
{
    if s.len() == 0 {
        None
    } else if s[0].0 == step_id {
        Some(s[0].1)
    } else {
        status_lookup(s.drop_first(), step_id)
    }
}

impl AgentState {
    /// Ghost form of the status records, newest first.
    pub closed spec fn status_v(&self) -> Seq<(int, StepStatus)> {
        Seq::new(
            self.status_log@.len(),
            |i: int|
                if 0 <= i < self.status_log@.len() {
                    (self.status_log@[i].0 as int, self.status_log@[i].1)
                } else {
                    (0, StepStatus::Pending)
                },
        )
    }

    /// Ghost form of the result records, newest first.
    pub closed spec fn results_v(&self) -> Seq<(int, StepResultView)> {
        Seq::new(
            self.result_log@.len(),
            |i: int|
                if 0 <= i < self.result_log@.len() {
                    (self.result_log@[i].0 as int, self.result_log@[i].1@)
                } else {
                    (0, StepResultView { output: Seq::empty(), success: false })
                },
        )
    }

    /// An empty state: nothing recorded yet.
    pub fn new() -> (r: AgentState)
        ensures
            r.status_v() =~= Seq::<(int, StepStatus)>::empty(),
            r.results_v() =~= Seq::<(int, StepResultView)>::empty(),
    {
        let r = AgentState { status_log: Vec::new(), result_log: Vec::new() };
        proof {
            assert(r.status_v() =~= Seq::<(int, StepStatus)>::empty());
            assert(r.results_v() =~= Seq::<(int, StepResultView)>::empty());
        }
        r
    }

    /// Records the status of a step; the new record shadows older ones.
    pub fn set_step_status(&mut self, step_id: usize, status: StepStatus)
        ensures
            final(self).status_v() =~= seq![(step_id as int, status)] + old(self).status_v(),
            final(self).results_v() == old(self).results_v(),
            status_lookup(final(self).status_v(), step_id as int) == Some(status),
    {
        self.status_log.insert(0, (step_id, status));
        proof {
            assert(final(self).status_v() =~= seq![(step_id as int, status)] + old(
                self,
            ).status_v());
            assert(final(self).results_v() =~= old(self).results_v());
        }
    }

    /// Records the result of a step; the new record shadows older ones.
    pub fn append_result(&mut self, step_id: usize, result: StepResult)
        ensures
            final(self).results_v() =~= seq![(step_id as int, result@)] + old(self).results_v(),
            final(self).status_v() == old(self).status_v(),
    {
        let ghost rv = result@;
        self.result_log.insert(0, (step_id, result));
        proof {
            assert(final(self).results_v() =~= seq![(step_id as int, rv)] + old(
                self,
            ).results_v());
            assert(final(self).status_v() =~= old(self).status_v());
        }
    }

    /// The latest status recorded for a step, if any.
    #[verifier::loop_isolation(false)]
    pub fn get_step_status(&self, step_id: usize) -> (r: Option<StepStatus>)
        ensures
            r == status_lookup(self.status_v(), step_id as int),
    {
        let ghost sv = self.status_v();
        proof {
            assert(sv.skip(0) =~= sv);
        }
        let mut k: usize = 0;
        while k < self.status_log.len()
            invariant
                k <= self.status_log.len(),
                status_lookup(sv, step_id as int) == status_lookup(
                    sv.skip(k as int),
                    step_id as int,
                ),
            decreases self.status_log.len() - k,
        {
            proof {
                assert(sv.skip(k as int)[0] == sv[k as int]);
            }
            if self.status_log[k].0 == step_id {
                return Some(self.status_log[k].1);
            }
            proof {
                assert(sv.skip(k as int).drop_first() =~= sv.skip(k as int + 1));
            }
            k += 1;
        }
        proof {
            assert(sv.skip(k as int) =~= Seq::<(int, StepStatus)>::empty());
        }
        None
    }
}

} // verus!
