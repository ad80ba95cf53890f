//! Decisions of the tracing loops of `profile run` and `profile attach`.
//!
//! The loops themselves (polling the ring buffer, waiting for the child,
//! signalling it) live with the I/O; they ask these functions what to do
//! next.

use vstd::prelude::*;

verus! {

/// State of the `profile run` loop.
#[derive(Debug, Clone, Copy, PartialEq, Eq, Structural)]
pub struct RunLoop {
    /// The traced child has not been seen to exit.
    pub child_alive: bool,
    /// SIGTERM has been sent to the child.
    pub signaled_term: bool,
}

/// What one check of the interrupt flag does: whether to send SIGTERM
/// now, and whether it has been sent afterwards.
pub open spec fn interrupt_step(signaled: bool, shutdown: bool) -> (bool, bool) {
    (shutdown && !signaled, signaled || shutdown)
}

/// How many SIGTERMs a run of interrupt checks sends, starting from
/// `signaled`.
pub open spec fn terms_sent(signaled: bool, flags: Seq<bool>) -> nat
    decreases flags.len(),
{
    if flags.len() == 0 {
        0
    } else {
        let (send, next) = interrupt_step(signaled, flags[0]);
        (if send { 1nat } else { 0nat }) + terms_sent(next, flags.drop_first())
    }
}

impl RunLoop {
    /// The loop before the child is released: alive, not signalled.
    pub fn new() -> (r: RunLoop)
        ensures
            r.child_alive,
            !r.signaled_term,
    {
        RunLoop { child_alive: true, signaled_term: false }
    }

    /// Whether the loop goes on: until the child has exited.
    pub fn keep_polling(&self) -> (b: bool)
        ensures
            b == self.child_alive,
    {
        self.child_alive
    }

    /// Consults the interrupt flag before a poll: returns whether to send
    /// SIGTERM to the child now, which happens on the first check that
    /// sees the flag set and never again.
    pub fn on_interrupt_check(&mut self, shutdown_requested: bool) -> (send_term: bool)
        ensures
            (send_term, final(self).signaled_term) == interrupt_step(old(self).signaled_term, shutdown_requested),
            final(self).child_alive == old(self).child_alive,
    {
        let send = shutdown_requested && !self.signaled_term;
        if send {
            self.signaled_term = true;
        }
        send
    }

    /// Records the outcome of a non-blocking wait for the child.
    pub fn on_wait(&mut self, still_alive: bool)
        ensures
            final(self).child_alive == still_alive,
            final(self).signaled_term == old(self).signaled_term,
    {
        self.child_alive = still_alive;
    }
}

/// Once SIGTERM has been sent, no later check sends another.
pub proof fn lemma_no_term_after_signal(flags: Seq<bool>)
    ensures
        terms_sent(true, flags) == 0,
    decreases flags.len(),
{
    if flags.len() > 0 {
        lemma_no_term_after_signal(flags.drop_first());
    }
}

/// However often the interrupt flag is checked, and however it reads,
/// the child is sent SIGTERM at most once, and exactly once if any check
/// sees the flag set.
pub proof fn lemma_term_sent_at_most_once(flags: Seq<bool>)
    ensures
        terms_sent(false, flags) <= 1,
        terms_sent(false, flags) == 1 <==> flags.contains(true),
    decreases flags.len(),
{
    if flags.len() > 0 {
        if flags[0] {
            lemma_no_term_after_signal(flags.drop_first());
            assert(flags.contains(true)) by {
                assert(flags[0] == true);
            }
        } else {
            lemma_term_sent_at_most_once(flags.drop_first());
            assert(flags.contains(true) <==> flags.drop_first().contains(true)) by {
                if flags.contains(true) {
                    let i = choose|i: int| 0 <= i < flags.len() && flags[i] == true;
                    assert(flags.drop_first()[i - 1] == true);
                }
                if flags.drop_first().contains(true) {
                    let i = choose|i: int| 0 <= i < flags.drop_first().len() && flags.drop_first()[i] == true;
                    assert(flags[i + 1] == true);
                }
            }
        }
    }
}

/// The next poll timeout of `profile attach`, in nanoseconds: `None`
/// stops the loop (interrupted, or the deadline reached); otherwise the
/// time left, capped at the poll interval.
pub fn attach_poll_timeout(shutdown_requested: bool, remaining_ns: u128, poll_interval_ns: u128) -> (t: Option<u128>)
    ensures
        t is None <==> (shutdown_requested || remaining_ns == 0),
        t matches Some(x) ==> x == if remaining_ns < poll_interval_ns { remaining_ns } else { poll_interval_ns },
{
    if shutdown_requested || remaining_ns == 0 {
        None
    } else if remaining_ns < poll_interval_ns {
        Some(remaining_ns)
    } else {
        Some(poll_interval_ns)
    }
}

} // verus!
