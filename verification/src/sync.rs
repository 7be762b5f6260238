//! Completion tokens: the signal that one system has finished.

use std::sync::atomic::{AtomicBool, Ordering};
use std::sync::Arc;
use vstd::prelude::*;

verus! {

/// A completion token: a flag that is set once, when the task it stands for
/// has finished, and that any thread may read.
pub struct TaskSync {
    /// Whether the task has finished.
    finish: AtomicBool,
}

impl Default for TaskSync {
    /// Creates a token that is not set.
    fn default() -> Self {
        Self { finish: AtomicBool::new(false) }
    }
}

impl TaskSync {
    /// Sets the token. Other threads share the flag, so nothing is said
    /// here of what a later read returns.
    pub fn mark_as_finish(&self) {
        self.finish.swap(true, Ordering::Relaxed);
    }

    /// Reads the token once. Other threads share the flag, so the result
    /// holds of the moment of the read only.
    pub fn is_finished(&self) -> bool {
        self.finish.load(Ordering::SeqCst)
    }
}

/// What a waiting thread does next.
#[derive(Clone, Copy, Debug, PartialEq, Eq, Structural)]
pub enum WaitStep {
    /// Every token was set: the wait is over.
    Done,
    /// Some token was not set: sleep a moment and read them again.
    Retry,
}

/// Whether every flag of `flags` is set.
pub open spec fn all_set(flags: Seq<bool>) -> bool {
    forall|k: int| 0 <= k < flags.len() ==> flags[k]
}

/// Reads every token of `tokens` once, in order.
pub fn poll(tokens: &Vec<Arc<TaskSync>>) -> (flags: Vec<bool>)
    ensures
        flags@.len() == tokens@.len(),
{
    let mut flags: Vec<bool> = Vec::new();
    let mut k: usize = 0;
    while k < tokens.len()
        invariant
            k <= tokens@.len(),
            flags@.len() == k,
        decreases tokens@.len() - k,
    {
        flags.push(tokens[k].is_finished());
        k += 1;
    }
    flags
}

/// Decides what a thread that waits for several tokens does after it has
/// read them as `flags`: the wait is over exactly when every one was set.
pub fn wait_step(flags: &Vec<bool>) -> (step: WaitStep)
    ensures
        step == if all_set(flags@) {
            WaitStep::Done
        } else {
            WaitStep::Retry
        },
{
    let mut did_finish = true;
    let mut k: usize = 0;
    while k < flags.len()
        invariant
            k <= flags@.len(),
            did_finish == all_set(flags@.take(k as int)),
        decreases flags@.len() - k,
    {
        proof {
            let shorter = flags@.take(k as int);
            let longer = flags@.take(k + 1);
            if all_set(longer) {
                assert forall|j: int| 0 <= j < shorter.len() implies shorter[j] by {
                    assert(longer[j]);
                }
                assert(longer[k as int]);
            }
            if all_set(shorter) && flags@[k as int] {
                assert forall|j: int| 0 <= j < longer.len() implies longer[j] by {
                    if j < k {
                        assert(shorter[j]);
                    }
                }
            }
        }
        did_finish = did_finish && flags[k];
        k += 1;
    }
    proof {
        assert(flags@.take(flags@.len() as int) == flags@);
    }
    if did_finish {
        WaitStep::Done
    } else {
        WaitStep::Retry
    }
}

} // verus!
