use vstd::multiset::group_multiset_axioms;
use vstd::prelude::*;
use vstd::seq_lib::{to_multiset_remove, to_multiset_update};

use crate::promises::{Promise, PromiseState};
use crate::timers::Interval;

verus! {

/// `s` with its element at `i` replaced by its last element, and shortened by
/// one: removal in constant time, which reorders the tail.
pub open spec fn swap_removed<A>(s: Seq<A>, i: int) -> Seq<A> {
    s.update(i, s.last()).drop_last()
}

/// Removing a slot by swapping does not depend on what the slot held.
pub proof fn lemma_swap_removed_ignores_slot<A>(s: Seq<A>, i: int, x: A)
    requires
        0 <= i < s.len(),
    ensures
        swap_removed(s.update(i, x), i) == swap_removed(s, i),
{
    assert(swap_removed(s.update(i, x), i) =~= swap_removed(s, i));
}

/// Removing a slot by swapping takes exactly one copy of its element out of
/// the multiset of elements and leaves every other element in place.
pub proof fn lemma_swap_removed_multiset<A>(s: Seq<A>, i: int)
    requires
        0 <= i < s.len(),
    ensures
        swap_removed(s, i).to_multiset() =~= s.to_multiset().remove(s[i]),
        swap_removed(s, i).len() == s.len() - 1,
{
    broadcast use group_multiset_axioms;

    let u = s.update(i, s.last());
    to_multiset_update(s, i, s.last());
    to_multiset_remove(u, u.len() - 1);
    assert(u.drop_last() =~= u.remove(u.len() - 1));
    assert(u[u.len() - 1] == s.last());
}

/// What one step of the scheduler did.
pub enum Step<E> {
    /// Nothing was scheduled, so nothing was polled.
    Idle,
    /// The task at `index` was polled and is still running.
    Pending { index: usize, blocking: bool },
    /// The task at `index` reached a terminal outcome and left the active set;
    /// `scheduled` tells whether its continuation scheduled a follow-up task.
    Finished { index: usize, blocking: bool, scheduled: bool },
    /// The task at `index` was rejected with no error continuation registered;
    /// it left the active set and the error is handed to the caller.
    Unhandled { index: usize, error: E },
}

/// Why a run stopped.
pub enum RunStop<E> {
    /// The active set is empty.
    Idle,
    /// A task was rejected with no error continuation registered.
    Unhandled(E),
    /// The allowed number of polls was spent while tasks were still active.
    OutOfPolls,
}

/// The scheduler: owns the active set of tasks and polls them in sweeps.
pub struct Poller<P> {
    in_wait: Vec<P>,
    cursor: usize,
}

impl<P> Poller<P> {
    /// The active set, in sweep order.
    pub closed spec fn tasks(&self) -> Seq<P> {
        self.in_wait@
    }

    /// The position in the current sweep of the next task to poll.
    pub closed spec fn cursor(&self) -> int {
        self.cursor as int
    }

    /// The index that the next step polls: the cursor, or the start of a new
    /// sweep once the cursor has passed the end of the active set.
    pub open spec fn next_index(&self) -> int {
        if self.cursor() < self.tasks().len() {
            self.cursor()
        } else {
            0
        }
    }

    /// An empty scheduler, at the start of a sweep.
    pub fn new() -> (r: Self)
        ensures
            r.tasks() == Seq::<P>::empty(),
            r.cursor() == 0,
    {
        Poller { in_wait: Vec::new(), cursor: 0 }
    }

    /// Adds `promise` to the end of the active set.
    pub fn schedule(&mut self, promise: P)
        ensures
            final(self).tasks() == old(self).tasks().push(promise),
            final(self).cursor() == old(self).cursor(),
    {
        self.in_wait.push(promise);
    }

    /// Whether the active set is empty.
    pub fn done(&self) -> (r: bool)
        ensures
            r == (self.tasks().len() == 0),
    {
        self.in_wait.len() == 0
    }

    /// The number of active tasks.
    pub fn len(&self) -> (r: usize)
        ensures
            r == self.tasks().len(),
    {
        self.in_wait.len()
    }
}

/// `next` is what the task `done`, which reached the terminal outcome `state`,
/// hands on: its completion continuation's answer to the payload, or its
/// error continuation's answer to the error.
pub open spec fn continued<T, E, P: Promise<T, E, P>>(
    done: P,
    state: PromiseState<Option<T>, E>,
    next: Option<P>,
) -> bool {
    match state {
        PromiseState::Done(v) => done.chains(v, next),
        PromiseState::Rejected(e) => done.rejects_to(e, Ok(next)),
        PromiseState::Pending => false,
    }
}

/// `tasks` is `rest`, followed by one follow-up task when `scheduled`.
pub open spec fn rest_then<A>(tasks: Seq<A>, rest: Seq<A>, scheduled: bool) -> bool {
    if scheduled {
        tasks.len() == rest.len() + 1 && tasks.drop_last() == rest
    } else {
        tasks == rest
    }
}

impl<P> Poller<P> {
    /// The follow-up that a step scheduling one appended, if `scheduled`.
    pub open spec fn follow_up(self, scheduled: bool) -> Option<P> {
        if scheduled {
            Some(self.tasks().last())
        } else {
            None
        }
    }

    /// `post` is `self` after a poll of the task at `next_index()` that left
    /// it running: that slot holds the polled task, no other slot changed,
    /// and the cursor stays on the slot when the task blocks, else moves one
    /// slot on.
    pub open spec fn pending_step<T, E>(self, post: Self, blocking: bool) -> bool
        where
            P: Promise<T, E, P>,
    {
        let i = self.next_index();
        &&& self.tasks().len() > 0
        &&& self.tasks()[i].blocks_as(blocking)
        &&& self.tasks()[i].polled(post.tasks()[i], PromiseState::Pending)
        &&& post.tasks().len() == self.tasks().len()
        &&& forall|j: int|
            0 <= j < self.tasks().len() && j != i ==> #[trigger] post.tasks()[j] == self.tasks()[j]
        &&& post.cursor() == if blocking { i } else { i + 1 }
    }

    /// `post` is `self` after the task at `next_index()` reached a terminal
    /// outcome: it was swapped with the last task and removed, and what its
    /// continuation handed on, if `scheduled`, was appended. The cursor stays
    /// on the slot when the task blocked, else moves one slot on.
    pub open spec fn finished_step<T, E>(self, post: Self, blocking: bool, scheduled: bool) -> bool
        where
            P: Promise<T, E, P>,
    {
        let i = self.next_index();
        &&& self.tasks().len() > 0
        &&& self.tasks()[i].blocks_as(blocking)
        &&& exists|done: P, state: PromiseState<Option<T>, E>|
            #[trigger] self.tasks()[i].polled(done, state) && state.terminal() && continued(
                done,
                state,
                post.follow_up(scheduled),
            )
        &&& rest_then(post.tasks(), swap_removed(self.tasks(), i), scheduled)
        &&& post.cursor() == if blocking { i } else { i + 1 }
    }

    /// `post` is `self` after the task at `next_index()` was rejected with
    /// `error` and had no error continuation: it was swapped with the last
    /// task and removed.
    pub open spec fn unhandled_step<T, E>(self, post: Self, error: E) -> bool
        where
            P: Promise<T, E, P>,
    {
        let i = self.next_index();
        &&& self.tasks().len() > 0
        &&& exists|done: P|
            #[trigger] self.tasks()[i].polled(done, PromiseState::Rejected(error)) && done.rejects_to(
                error,
                Err(error),
            )
        &&& post.tasks() == swap_removed(self.tasks(), i)
    }

    /// `post` is `self` after one step that polled a task and left the run
    /// going.
    pub open spec fn advances<T, E>(self, post: Self) -> bool
        where
            P: Promise<T, E, P>,
    {
        ||| exists|blocking: bool| #[trigger] self.pending_step::<T, E>(post, blocking)
        ||| exists|blocking: bool, scheduled: bool|
            #[trigger] self.finished_step::<T, E>(post, blocking, scheduled)
    }

    /// `post` is `self` after a step that finished its task and scheduled no
    /// follow-up.
    pub open spec fn finishes_alone<T, E>(self, post: Self) -> bool
        where
            P: Promise<T, E, P>,
    {
        self.finished_step::<T, E>(post, true, false) || self.finished_step::<T, E>(
            post,
            false,
            false,
        )
    }

    /// `trace` is a run of advancing steps from its first state to its last.
    pub open spec fn is_trace<T, E>(trace: Seq<Self>) -> bool
        where
            P: Promise<T, E, P>,
    {
        &&& trace.len() >= 1
        &&& forall|k: int|
            0 <= k < trace.len() - 1 ==> #[trigger] trace[k].advances::<T, E>(trace[k + 1])
    }

    /// `post` is what a run from `self` that may poll at most `max_polls`
    /// times leaves, given that it stopped for `r`: some run of advancing
    /// steps, then either an empty active set, the poll limit reached with
    /// tasks left, or one step whose rejection went unhandled.
    pub open spec fn runs_to<T, E>(self, post: Self, max_polls: nat, r: RunStop<E>) -> bool
        where
            P: Promise<T, E, P>,
    {
        exists|trace: Seq<Self>|
            {
                &&& #[trigger] Self::is_trace::<T, E>(trace)
                &&& trace[0] == self
                &&& trace.len() - 1 <= max_polls
                &&& match r {
                    RunStop::Idle => trace.last() == post && post.tasks().len() == 0,
                    RunStop::OutOfPolls => trace.last() == post && trace.len() - 1 == max_polls
                        && post.tasks().len() > 0,
                    RunStop::Unhandled(e) => trace.len() - 1 < max_polls
                        && trace.last().unhandled_step::<T, E>(post, e),
                }
            }
    }

    /// Takes the task at `idx`, which reached the terminal outcome `state`,
    /// out of the active set by swapping it with the last task, then runs the
    /// matching continuation and schedules what it returns.
    ///
    /// Returns whether a follow-up task was scheduled, or the error of a
    /// rejection with no error continuation.
    fn handle_complete<T, E>(&mut self, state: PromiseState<Option<T>, E>, idx: usize) -> (r:
        Result<bool, E>)
        where
            P: Promise<T, E, P>,
        requires
            idx < old(self).tasks().len(),
            state.terminal(),
        ensures
            final(self).cursor() == old(self).cursor(),
            ({
                let done = old(self).tasks()[idx as int];
                let rest = swap_removed(old(self).tasks(), idx as int);
                match r {
                    Ok(scheduled) => rest_then(final(self).tasks(), rest, scheduled) && continued(
                        done,
                        state,
                        final(self).follow_up(scheduled),
                    ),
                    Err(e) => final(self).tasks() == rest && state == PromiseState::<
                        Option<T>,
                        E,
                    >::Rejected(e) && done.rejects_to(e, Err(e)),
                }
            }),
    {
        let promise = self.in_wait.swap_remove(idx);
        let next = match state {
            PromiseState::Done(val) => promise.chain(val),
            PromiseState::Rejected(err) => match promise.chain_err(err) {
                Ok(next) => next,
                Err(err) => {
                    return Err(err);
                },
            },
            PromiseState::Pending => None,
        };
        match next {
            Some(task) => {
                self.in_wait.push(task);
                proof {
                    assert(self.in_wait@.drop_last() =~= swap_removed(old(self).tasks(), idx as int));
                }
                Ok(true)
            },
            None => Ok(false),
        }
    }

    /// Makes one step of a sweep: polls the task at `next_index()` once.
    ///
    /// A task that asks to block keeps the cursor on its slot, so the next
    /// step polls it, or the task that took its slot, again. Any other task
    /// moves the cursor one slot on, whether or not it finished.
    pub fn step<T, E>(&mut self) -> (r: Step<E>)
        where
            P: Promise<T, E, P>,
        ensures
            old(self).tasks().len() == 0 <==> r is Idle,
            r is Idle ==> *final(self) == *old(self),
            r matches Step::Pending { index, blocking } ==> index == old(self).next_index()
                && old(self).pending_step::<T, E>(*final(self), blocking),
            r matches Step::Finished { index, blocking, scheduled } ==> index
                == old(self).next_index() && old(self).finished_step::<T, E>(
                *final(self),
                blocking,
                scheduled,
            ),
            r matches Step::Unhandled { index, error } ==> index == old(self).next_index()
                && old(self).unhandled_step::<T, E>(*final(self), error),
    {
        let len = self.in_wait.len();
        if len == 0 {
            return Step::Idle;
        }
        if self.cursor >= len {
            self.cursor = 0;
        }
        let idx = self.cursor;
        let blocking = self.in_wait[idx].should_block();
        let ghost before = self.in_wait@;
        let state = self.in_wait[idx].poll();
        let ghost done = self.in_wait@[idx as int];
        let ghost outcome = state;
        proof {
            assert(self.in_wait@ == before.update(idx as int, done));
            lemma_swap_removed_ignores_slot(before, idx as int, done);
        }
        if !state.is_done() {
            if !blocking {
                self.cursor = idx + 1;
            }
            return Step::Pending { index: idx, blocking };
        }
        match self.handle_complete(state, idx) {
            Ok(scheduled) => {
                if !blocking {
                    self.cursor = idx + 1;
                }
                proof {
                    assert(old(self).tasks()[idx as int].polled(done, outcome) && outcome.terminal()
                        && continued(done, outcome, self.follow_up(scheduled)));
                }
                Step::Finished { index: idx, blocking, scheduled }
            },
            Err(error) => {
                proof {
                    assert(old(self).tasks()[old(self).next_index()].polled(
                        done,
                        PromiseState::<Option<T>, E>::Rejected(error),
                    ));
                }
                Step::Unhandled { index: idx, error }
            },
        }
    }

    /// Runs steps until the active set is empty, a rejection goes unhandled,
    /// or `max_polls` polls have been made.
    pub fn run_for<T, E>(&mut self, max_polls: u64) -> (r: RunStop<E>)
        where
            P: Promise<T, E, P>,
        ensures
            old(self).runs_to::<T, E>(*final(self), max_polls as nat, r),
    {
        let mut polls: u64 = 0;
        let ghost trace = seq![*self];
        while polls < max_polls
            invariant
                polls <= max_polls,
                Self::is_trace::<T, E>(trace),
                trace[0] == *old(self),
                trace.last() == *self,
                trace.len() - 1 == polls,
            decreases max_polls - polls,
        {
            let ghost prev = *self;
            match self.step() {
                Step::Idle => {
                    return RunStop::Idle;
                },
                Step::Unhandled { index, error } => {
                    return RunStop::Unhandled(error);
                },
                Step::Pending { index, blocking } => {
                    assert(prev.pending_step::<T, E>(*self, blocking));
                },
                Step::Finished { index, blocking, scheduled } => {
                    assert(prev.finished_step::<T, E>(*self, blocking, scheduled));
                },
            }
            proof {
                let next = trace.push(*self);
                assert forall|k: int| 0 <= k < next.len() - 1 implies #[trigger] next[k].advances::<
                    T,
                    E,
                >(next[k + 1]) by {
                    if k < trace.len() - 1 {
                        assert(next[k] == trace[k] && next[k + 1] == trace[k + 1]);
                    }
                }
                trace = next;
            }
            polls = polls + 1;
        }
        if self.done() {
            RunStop::Idle
        } else {
            RunStop::OutOfPolls
        }
    }

    /// Drives the active set until it is empty, or until a task is rejected
    /// with no error continuation registered, which ends the run at once and
    /// hands the error to the caller.
    ///
    /// The run gives up after `u64::MAX` polls, a count no process reaches.
    pub fn run<T, E>(&mut self) -> (r: RunStop<E>)
        where
            P: Promise<T, E, P>,
        ensures
            old(self).runs_to::<T, E>(*final(self), u64::MAX as nat, r),
    {
        self.run_for(u64::MAX)
    }
}

/// A task that reaches a terminal outcome leaves the active set in the very
/// step that saw the outcome, so no later step can poll it, while every other
/// task stays: apart from a continuation's follow-up, the active set after the
/// step holds exactly the tasks it held before, less one copy of the finished
/// one. The same holds when the rejection goes unhandled.
pub proof fn law_finished_task_leaves<T, E, P: Promise<T, E, P>>(
    pre: Poller<P>,
    post: Poller<P>,
    blocking: bool,
    scheduled: bool,
    error: E,
)
    requires
        pre.finished_step::<T, E>(post, blocking, scheduled) || pre.unhandled_step::<T, E>(
            post,
            error,
        ),
    ensures
        ({
            let kept = if pre.finished_step::<T, E>(post, blocking, scheduled) && scheduled {
                post.tasks().drop_last()
            } else {
                post.tasks()
            };
            &&& kept.len() == pre.tasks().len() - 1
            &&& kept.to_multiset() == pre.tasks().to_multiset().remove(
                pre.tasks()[pre.next_index()],
            )
        }),
{
    lemma_swap_removed_multiset(pre.tasks(), pre.next_index());
}

/// No sibling is lost: whatever the polled task did, every other task of the
/// active set is still in it after the step.
pub proof fn law_siblings_stay<T, E, P: Promise<T, E, P>>(
    pre: Poller<P>,
    post: Poller<P>,
    blocking: bool,
    scheduled: bool,
    error: E,
    j: int,
)
    requires
        pre.pending_step::<T, E>(post, blocking) || pre.finished_step::<T, E>(
            post,
            blocking,
            scheduled,
        ) || pre.unhandled_step::<T, E>(post, error),
        0 <= j < pre.tasks().len(),
        j != pre.next_index(),
    ensures
        post.tasks().contains(pre.tasks()[j]),
{
    let i = pre.next_index();
    let s = pre.tasks();
    if pre.pending_step::<T, E>(post, blocking) {
        assert(post.tasks()[j] == s[j]);
    } else {
        let rest = swap_removed(s, i);
        if j == s.len() - 1 {
            assert(rest[i] == s[j]);
            assert(post.tasks()[i] == rest[i]);
        } else {
            assert(rest[j] == s[j]);
            assert(post.tasks()[j] == rest[j]);
        }
    }
}

/// A finished task's follow-up is what its continuation handed back: the
/// completion continuation, run on the payload the task finished with, or
/// the error continuation, run on the error it was rejected with.
pub proof fn law_follow_up_is_continuation<T, E, P: Promise<T, E, P>>(
    pre: Poller<P>,
    post: Poller<P>,
    blocking: bool,
)
    requires
        pre.finished_step::<T, E>(post, blocking, true),
    ensures
        post.tasks().len() == pre.tasks().len(),
        exists|done: P, state: PromiseState<Option<T>, E>|
            #[trigger] pre.tasks()[pre.next_index()].polled(done, state) && match state {
                PromiseState::Done(v) => done.chains(v, Some(post.tasks().last())),
                PromiseState::Rejected(e) => done.rejects_to(e, Ok(Some(post.tasks().last()))),
                PromiseState::Pending => false,
            },
{
    lemma_swap_removed_multiset(pre.tasks(), pre.next_index());
}

/// A rejection with no error continuation ends the run at once: the run
/// stops right after the step whose task was rejected with that error, and
/// polls nothing more.
pub proof fn law_unhandled_rejection_ends_run<T, E, P: Promise<T, E, P>>(
    pre: Poller<P>,
    post: Poller<P>,
    max_polls: nat,
    error: E,
)
    requires
        pre.runs_to::<T, E>(post, max_polls, RunStop::Unhandled(error)),
    ensures
        exists|last: Poller<P>| #[trigger] last.unhandled_step::<T, E>(post, error),
{
    let trace = choose|trace: Seq<Poller<P>>|
        {
            &&& #[trigger] Poller::<P>::is_trace::<T, E>(trace)
            &&& trace[0] == pre
            &&& trace.len() - 1 <= max_polls
            &&& trace.len() - 1 < max_polls && trace.last().unhandled_step::<T, E>(post, error)
        };
    assert(trace.last().unhandled_step::<T, E>(post, error));
}

/// A blocking task holds the scheduler: after a step that polled it and left
/// it running, its slot holds it as polled, no other task was touched, and
/// the next step polls that same slot.
pub proof fn law_blocking_holds_slot<T, E, P: Promise<T, E, P>>(pre: Poller<P>, post: Poller<P>)
    requires
        pre.pending_step::<T, E>(post, true),
    ensures
        post.next_index() == pre.next_index(),
        pre.tasks()[pre.next_index()].polled(post.tasks()[pre.next_index()], PromiseState::Pending),
        forall|j: int|
            0 <= j < pre.tasks().len() && j != pre.next_index() ==> #[trigger] post.tasks()[j]
                == pre.tasks()[j],
{
}

/// Only a continuation's follow-up ever adds a task: a step that leaves its
/// task running keeps the size of the active set, and one that finishes it
/// shrinks the set by one unless a follow-up takes its place.
pub proof fn law_step_size<T, E, P: Promise<T, E, P>>(
    pre: Poller<P>,
    post: Poller<P>,
    blocking: bool,
    scheduled: bool,
)
    requires
        pre.pending_step::<T, E>(post, blocking) || pre.finished_step::<T, E>(
            post,
            blocking,
            scheduled,
        ),
    ensures
        pre.pending_step::<T, E>(post, blocking) ==> post.tasks().len() == pre.tasks().len(),
        pre.finished_step::<T, E>(post, blocking, scheduled) ==> post.tasks().len()
            == pre.tasks().len() - 1 + if scheduled { 1int } else { 0int },
{
}

/// Finishing tasks is a measure that a run cannot escape: along any run of
/// steps in which each poll finishes its task and schedules no follow-up, the
/// active set shrinks by one per poll, so such a run over `n` tasks empties
/// the set after exactly `n` polls and cannot go on longer.
pub proof fn law_finishing_run_drains<T, E, P: Promise<T, E, P>>(trace: Seq<Poller<P>>)
    requires
        trace.len() >= 1,
        forall|k: int|
            0 <= k < trace.len() - 1 ==> #[trigger] trace[k].finishes_alone::<T, E>(trace[k + 1]),
    ensures
        trace.last().tasks().len() + (trace.len() - 1) == trace[0].tasks().len(),
        trace.len() - 1 <= trace[0].tasks().len(),
    decreases trace.len(),
{
    if trace.len() > 1 {
        let t = trace.drop_last();
        assert forall|k: int| 0 <= k < t.len() - 1 implies #[trigger] t[k].finishes_alone::<T, E>(
            t[k + 1],
        ) by {
            assert(trace[k].finishes_alone::<T, E>(trace[k + 1]));
        }
        law_finishing_run_drains::<T, E, P>(t);
        let k = trace.len() - 2;
        assert(trace[k].finishes_alone::<T, E>(trace[k + 1]));
        lemma_swap_removed_multiset(trace[k].tasks(), trace[k].next_index());
    }
}

/// Along a run of steps over recurring timers, no step finishes a timer, so
/// the active set keeps its size.
pub proof fn lemma_interval_trace_keeps_size<T, E, A: Fn()>(trace: Seq<Poller<Interval<A>>>)
    requires
        Poller::<Interval<A>>::is_trace::<T, E>(trace),
    ensures
        trace.last().tasks().len() == trace[0].tasks().len(),
    decreases trace.len(),
{
    if trace.len() > 1 {
        let t = trace.drop_last();
        assert forall|k: int| 0 <= k < t.len() - 1 implies #[trigger] t[k].advances::<T, E>(
            t[k + 1],
        ) by {
            assert(trace[k].advances::<T, E>(trace[k + 1]));
        }
        lemma_interval_trace_keeps_size::<T, E, A>(t);
        let k = trace.len() - 2;
        assert(trace[k].advances::<T, E>(trace[k + 1]));
        if exists|blocking: bool, scheduled: bool|
            #[trigger] trace[k].finished_step::<T, E>(trace[k + 1], blocking, scheduled) {
            let (blocking, scheduled) = choose|blocking: bool, scheduled: bool|
                #[trigger] trace[k].finished_step::<T, E>(trace[k + 1], blocking, scheduled);
            let i = trace[k].next_index();
            let (done, state) = choose|done: Interval<A>, state: PromiseState<Option<T>, E>|
                #[trigger] <Interval<A> as Promise<T, E, Interval<A>>>::polled(
                    &trace[k].tasks()[i],
                    done,
                    state,
                ) && state.terminal() && continued(done, state, trace[k + 1].follow_up(scheduled));
            assert(false);
        }
    }
}

/// A recurring timer never finishes, so a run over an active set of them
/// never empties it and never escalates: it only stops once its polls are
/// spent, with every timer still there.
pub proof fn law_intervals_run_forever<T, E, A: Fn()>(
    pre: Poller<Interval<A>>,
    post: Poller<Interval<A>>,
    max_polls: nat,
    r: RunStop<E>,
)
    requires
        pre.runs_to::<T, E>(post, max_polls, r),
        pre.tasks().len() > 0,
    ensures
        r is OutOfPolls,
        post.tasks().len() == pre.tasks().len(),
{
    let trace = choose|trace: Seq<Poller<Interval<A>>>|
        {
            &&& #[trigger] Poller::<Interval<A>>::is_trace::<T, E>(trace)
            &&& trace[0] == pre
            &&& trace.len() - 1 <= max_polls
            &&& match r {
                RunStop::Idle => trace.last() == post && post.tasks().len() == 0,
                RunStop::OutOfPolls => trace.last() == post && trace.len() - 1 == max_polls
                    && post.tasks().len() > 0,
                RunStop::Unhandled(e) => trace.len() - 1 < max_polls
                    && trace.last().unhandled_step::<T, E>(post, e),
            }
        };
    lemma_interval_trace_keeps_size::<T, E, A>(trace);
    if let RunStop::Unhandled(e) = r {
        let last = trace.last();
        let done = choose|done: Interval<A>|
            #[trigger] <Interval<A> as Promise<T, E, Interval<A>>>::polled(
                &last.tasks()[last.next_index()],
                done,
                PromiseState::Rejected(e),
            ) && <Interval<A> as Promise<T, E, Interval<A>>>::rejects_to(&done, e, Err(e));
        assert(false);
    }
}

/// The work left in `s` under the measure `m`: each task counts its measure
/// plus one.
pub open spec fn work<P>(s: Seq<P>, m: spec_fn(P) -> nat) -> nat
    decreases s.len(),
{
    if s.len() == 0 {
        0
    } else {
        work(s.drop_last(), m) + m(s.last()) + 1
    }
}

/// Replacing one task changes the work left by the difference of measures.
pub proof fn lemma_work_update<P>(s: Seq<P>, i: int, x: P, m: spec_fn(P) -> nat)
    requires
        0 <= i < s.len(),
    ensures
        work(s.update(i, x), m) + m(s[i]) == work(s, m) + m(x),
    decreases s.len(),
{
    let u = s.update(i, x);
    if i == s.len() - 1 {
        assert(u.drop_last() =~= s.drop_last());
    } else {
        assert(u.drop_last() =~= s.drop_last().update(i, x));
        lemma_work_update(s.drop_last(), i, x, m);
    }
}

/// Removing a slot by swapping takes exactly that task's share of work.
pub proof fn lemma_work_swap_removed<P>(s: Seq<P>, i: int, m: spec_fn(P) -> nat)
    requires
        0 <= i < s.len(),
    ensures
        work(swap_removed(s, i), m) + m(s[i]) + 1 == work(s, m),
{
    lemma_work_update(s, i, s.last(), m);
}

/// `m` measures how far every task is from finishing: a poll that leaves a
/// task running lowers its measure, and a follow-up that a continuation hands
/// on measures less than the task it came from.
pub open spec fn is_progress_measure<T, E, P: Promise<T, E, P>>(m: spec_fn(P) -> nat) -> bool {
    &&& forall|t: P, post: P| #[trigger] t.polled(post, PromiseState::Pending) ==> m(post) < m(t)
    &&& forall|t: P, done: P, state: PromiseState<Option<T>, E>, q: P|
        #[trigger] t.polled(done, state) && state.terminal() && #[trigger] continued(
            done,
            state,
            Some(q),
        ) ==> m(q) < m(t)
}

/// Under a progress measure, every step that leaves a run going lowers the
/// work left.
pub proof fn lemma_step_lowers_work<T, E, P: Promise<T, E, P>>(
    pre: Poller<P>,
    post: Poller<P>,
    m: spec_fn(P) -> nat,
)
    requires
        is_progress_measure::<T, E, P>(m),
        pre.advances::<T, E>(post),
    ensures
        work(post.tasks(), m) < work(pre.tasks(), m),
{
    let i = pre.next_index();
    let s = pre.tasks();
    if exists|blocking: bool| #[trigger] pre.pending_step::<T, E>(post, blocking) {
        let blocking = choose|blocking: bool| #[trigger] pre.pending_step::<T, E>(post, blocking);
        assert(post.tasks() =~= s.update(i, post.tasks()[i]));
        lemma_work_update(s, i, post.tasks()[i], m);
    } else {
        let (blocking, scheduled) = choose|blocking: bool, scheduled: bool|
            #[trigger] pre.finished_step::<T, E>(post, blocking, scheduled);
        lemma_work_swap_removed(s, i, m);
        if scheduled {
            let (done, state) = choose|done: P, state: PromiseState<Option<T>, E>|
                #[trigger] s[i].polled(done, state) && state.terminal() && continued(
                    done,
                    state,
                    post.follow_up(scheduled),
                );
            let q = post.tasks().last();
            assert(continued(done, state, Some(q)));
            assert(m(q) < m(s[i]));
            assert(post.tasks().drop_last() == swap_removed(s, i));
        }
    }
}

/// Along a run under a progress measure, each step lowers the work left.
pub proof fn lemma_trace_lowers_work<T, E, P: Promise<T, E, P>>(
    trace: Seq<Poller<P>>,
    m: spec_fn(P) -> nat,
)
    requires
        is_progress_measure::<T, E, P>(m),
        Poller::<P>::is_trace::<T, E>(trace),
    ensures
        work(trace.last().tasks(), m) + (trace.len() - 1) <= work(trace[0].tasks(), m),
    decreases trace.len(),
{
    if trace.len() > 1 {
        let t = trace.drop_last();
        assert forall|k: int| 0 <= k < t.len() - 1 implies #[trigger] t[k].advances::<T, E>(
            t[k + 1],
        ) by {
            assert(trace[k].advances::<T, E>(trace[k + 1]));
        }
        lemma_trace_lowers_work::<T, E, P>(t, m);
        let k = trace.len() - 2;
        assert(trace[k].advances::<T, E>(trace[k + 1]));
        lemma_step_lowers_work::<T, E, P>(trace[k], trace[k + 1], m);
    }
}

/// Termination: when every task, and every follow-up its continuations hand
/// on, is bound to finish (a progress measure exists), a run allowed at least
/// as many polls as the work left stops before spending them: with an empty
/// active set, or on a rejection with no error continuation.
pub proof fn law_run_terminates<T, E, P: Promise<T, E, P>>(
    pre: Poller<P>,
    post: Poller<P>,
    max_polls: nat,
    r: RunStop<E>,
    m: spec_fn(P) -> nat,
)
    requires
        is_progress_measure::<T, E, P>(m),
        max_polls >= work(pre.tasks(), m),
        pre.runs_to::<T, E>(post, max_polls, r),
    ensures
        r is Idle || r is Unhandled,
        r is Idle ==> post.tasks().len() == 0,
{
    let trace = choose|trace: Seq<Poller<P>>|
        {
            &&& #[trigger] Poller::<P>::is_trace::<T, E>(trace)
            &&& trace[0] == pre
            &&& trace.len() - 1 <= max_polls
            &&& match r {
                RunStop::Idle => trace.last() == post && post.tasks().len() == 0,
                RunStop::OutOfPolls => trace.last() == post && trace.len() - 1 == max_polls
                    && post.tasks().len() > 0,
                RunStop::Unhandled(e) => trace.len() - 1 < max_polls
                    && trace.last().unhandled_step::<T, E>(post, e),
            }
        };
    lemma_trace_lowers_work::<T, E, P>(trace, m);
    if r is OutOfPolls {
        let s = post.tasks();
        assert(s.len() > 0);
        assert(work(s, m) >= 1);
    }
}

} // verus!
