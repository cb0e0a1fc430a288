//! The run that creates the four fixed link outputs.
//!
//! The outputs are created one after the other, and the run stops at the
//! first creation that fails: later outputs are not attempted and earlier
//! ones are not rolled back.  The run is a small machine; the process layer
//! asks it for the next output, performs the creation, and records the
//! outcome.

use vstd::prelude::*;

verus! {

/// The names of the four link outputs, in creation order.
pub open spec fn link_output_names() -> Seq<Seq<char>> {
    seq!["BEACN_Link_Out"@, "BEACN_Link_2_Out"@, "BEACN_Link_3_Out"@, "BEACN_Link_4_Out"@]
}

/// The state of one creation run.
pub struct LinkOutputsRun {
    created: u8,
    failed: bool,
}

impl LinkOutputsRun {
    /// How many outputs the run has created so far.
    pub closed spec fn spec_created(&self) -> int {
        self.created as int
    }

    /// Whether a creation has failed.
    pub closed spec fn has_failed(&self) -> bool {
        self.failed
    }

    pub open spec fn wf(&self) -> bool {
        0 <= self.spec_created() <= 4
    }

    /// The run goes on while nothing failed and outputs are left.
    pub open spec fn in_progress(&self) -> bool {
        !self.has_failed() && self.spec_created() < 4
    }

    /// The overall result: `false` as soon as one creation failed, `true`
    /// once all four outputs exist, none while the run is still going.
    pub open spec fn spec_outcome(&self) -> Option<bool> {
        if self.has_failed() {
            Some(false)
        } else if self.spec_created() == 4 {
            Some(true)
        } else {
            None
        }
    }

    /// A fresh run: nothing created, nothing failed.
    pub fn new() -> (run: LinkOutputsRun)
        ensures
            run == initial_run(),
            run.spec_created() == 0,
            !run.has_failed(),
            run.wf(),
    {
        LinkOutputsRun { created: 0, failed: false }
    }

    /// The name of the output to create next, or `None` once the run is over.
    pub fn next_output(&self) -> (name: Option<String>)
        requires
            self.wf(),
        ensures
            match name {
                Some(n) => self.in_progress() && n@ == link_output_names()[self.spec_created()],
                None => !self.in_progress(),
            },
    {
        if self.failed || self.created >= 4 {
            None
        } else {
            let name: &str = if self.created == 0 {
                "BEACN_Link_Out"
            } else if self.created == 1 {
                "BEACN_Link_2_Out"
            } else if self.created == 2 {
                "BEACN_Link_3_Out"
            } else {
                "BEACN_Link_4_Out"
            };
            Some(name.to_owned())
        }
    }

    /// Records whether creating the pending output succeeded: a success
    /// moves on to the next output, a failure ends the run; the count of
    /// created outputs never goes down.
    pub fn record(&mut self, created_ok: bool)
        requires
            old(self).wf(),
            old(self).in_progress(),
        ensures
            *final(self) == spec_record(*old(self), created_ok),
            final(self).wf(),
    {
        if created_ok {
            self.created = self.created + 1;
        } else {
            self.failed = true;
        }
    }

    /// The overall result of the run so far.
    pub fn outcome(&self) -> (result: Option<bool>)
        requires
            self.wf(),
        ensures
            result == self.spec_outcome(),
    {
        if self.failed {
            Some(false)
        } else if self.created >= 4 {
            Some(true)
        } else {
            None
        }
    }
}

/// The state a fresh run starts in.
pub closed spec fn initial_run() -> LinkOutputsRun {
    LinkOutputsRun { created: 0, failed: false }
}

/// One recorded attempt.  While the run is in progress a success counts the
/// output as created and a failure marks the run failed without touching the
/// count; once the run is over nothing changes any more.
pub closed spec fn spec_record(pre: LinkOutputsRun, created_ok: bool) -> LinkOutputsRun {
    if !pre.in_progress() {
        pre
    } else if created_ok {
        LinkOutputsRun { created: (pre.created + 1) as u8, failed: false }
    } else {
        LinkOutputsRun { created: pre.created, failed: true }
    }
}

/// What one recorded attempt does to the run, stated over its observers.
pub proof fn lemma_record(pre: LinkOutputsRun, created_ok: bool)
    ensures
        pre.in_progress() && created_ok ==> spec_record(pre, created_ok).spec_created()
            == pre.spec_created() + 1 && !spec_record(pre, created_ok).has_failed(),
        pre.in_progress() && !created_ok ==> spec_record(pre, created_ok).spec_created()
            == pre.spec_created() && spec_record(pre, created_ok).has_failed(),
        !pre.in_progress() ==> spec_record(pre, created_ok) == pre,
        spec_record(pre, created_ok).spec_created() >= pre.spec_created(),
{
}

/// The run after a sequence of recorded outcomes, one per attempt.
pub open spec fn run_after(results: Seq<bool>) -> LinkOutputsRun
    decreases results.len(),
{
    if results.len() == 0 {
        initial_run()
    } else {
        spec_record(run_after(results.drop_last()), results.last())
    }
}

/// A run whose recorded attempts all succeeded has created exactly that many
/// outputs and has not failed.
pub proof fn lemma_link_outputs_all_succeed(results: Seq<bool>)
    requires
        results.len() <= 4,
        forall|j: int| 0 <= j < results.len() ==> results[j],
    ensures
        !run_after(results).has_failed(),
        run_after(results).spec_created() == results.len(),
        run_after(results).wf(),
    decreases results.len(),
{
    if results.len() > 0 {
        lemma_link_outputs_all_succeed(results.drop_last());
    }
}

/// The run stops at the first failing creation: its overall result is
/// `false`, and the outputs created before the failure stay created —
/// whatever is recorded afterwards changes nothing.
pub proof fn lemma_link_outputs_fail_fast(results: Seq<bool>, k: int)
    requires
        0 <= k < results.len(),
        k < 4,
        !results[k],
        forall|j: int| 0 <= j < k ==> results[j],
    ensures
        run_after(results).has_failed(),
        run_after(results).spec_created() == k,
        run_after(results).spec_outcome() == Some(false),
    decreases results.len(),
{
    if results.len() - 1 == k {
        lemma_link_outputs_all_succeed(results.drop_last());
    } else {
        lemma_link_outputs_fail_fast(results.drop_last(), k);
    }
}

} // verus!
