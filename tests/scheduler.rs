use std::cell::Cell;
use std::rc::Rc;
use std::time::Instant;

use poll_runtime::poller::{Poller, RunStop, Step};
use poll_runtime::promises::{promise, GenericPromise, Promise, PromiseState};
use poll_runtime::timers::{set_interval, set_timeout, Interval, Timeout};

type Outcome = PromiseState<Option<u64>, String>;
type StepFn = Box<dyn Fn(Option<u64>) -> (Option<u64>, Outcome)>;
type ThenFn = Box<dyn Fn(Option<u64>) -> Option<Job>>;
type CatchFn = Box<dyn Fn(String) -> Option<Job>>;
type Action = Box<dyn Fn()>;
type Gen = GenericPromise<u64, u64, String, Job, StepFn, ThenFn, CatchFn>;

enum Job {
    Gen(Gen),
    Once(Timeout<Action>),
    Every(Interval<Action>),
}

impl Promise<u64, String, Job> for Job {
    fn poll(&mut self) -> Outcome {
        match self {
            Job::Gen(g) => g.poll(),
            Job::Once(t) => <Timeout<Action> as Promise<u64, String, Job>>::poll(t),
            Job::Every(t) => <Interval<Action> as Promise<u64, String, Job>>::poll(t),
        }
    }
    fn chain(&self, val: Option<u64>) -> Option<Job> {
        match self {
            Job::Gen(g) => g.chain(val),
            Job::Once(t) => <Timeout<Action> as Promise<u64, String, Job>>::chain(t, val),
            Job::Every(t) => <Interval<Action> as Promise<u64, String, Job>>::chain(t, val),
        }
    }
    fn chain_err(&self, err: String) -> Result<Option<Job>, String> {
        match self {
            Job::Gen(g) => g.chain_err(err),
            Job::Once(t) => <Timeout<Action> as Promise<u64, String, Job>>::chain_err(t, err),
            Job::Every(t) => <Interval<Action> as Promise<u64, String, Job>>::chain_err(t, err),
        }
    }
    fn should_block(&self) -> bool {
        match self {
            Job::Gen(g) => g.should_block(),
            Job::Once(t) => <Timeout<Action> as Promise<u64, String, Job>>::should_block(t),
            Job::Every(t) => <Interval<Action> as Promise<u64, String, Job>>::should_block(t),
        }
    }
    fn block(&mut self) {
        match self {
            Job::Gen(g) => g.block(),
            Job::Once(t) => <Timeout<Action> as Promise<u64, String, Job>>::block(t),
            Job::Every(t) => <Interval<Action> as Promise<u64, String, Job>>::block(t),
        }
    }
}

fn gen(f: StepFn, data: Option<u64>) -> Gen {
    promise::<u64, u64, String, Job, StepFn, ThenFn, CatchFn>(f, data)
}

/// A task that counts its polls in `polls` and finishes with `Done(Some(n))`
/// at poll number `n`; it panics if polled after it finished.
fn finishes_after(n: u64, polls: Rc<Cell<u64>>) -> Gen {
    gen(
        Box::new(move |d: Option<u64>| {
            let seen = d.unwrap_or(0);
            assert!(seen < n, "polled after it finished");
            polls.set(polls.get() + 1);
            if seen + 1 == n {
                (Some(seen + 1), PromiseState::Done(Some(n)))
            } else {
                (Some(seen + 1), PromiseState::Pending)
            }
        }),
        Some(0),
    )
}

fn rejects(msg: &str) -> Gen {
    let m = msg.to_string();
    gen(Box::new(move |d| (d, PromiseState::Rejected(m.clone()))), None)
}

#[test]
fn is_done_tells_terminal_outcomes() {
    let p: PromiseState<u64, String> = PromiseState::Pending;
    let d: PromiseState<u64, String> = PromiseState::Done(3);
    let r: PromiseState<u64, String> = PromiseState::Rejected("no".to_string());
    assert!(!p.is_done());
    assert!(d.is_done());
    assert!(r.is_done());
}

#[test]
fn new_poller_is_idle() {
    let mut poller: Poller<Job> = Poller::new();
    assert!(poller.done());
    assert_eq!(poller.len(), 0);
    assert!(matches!(poller.step(), Step::Idle));
    assert!(matches!(poller.run(), RunStop::Idle));
}

#[test]
fn schedule_appends() {
    let mut poller: Poller<Job> = Poller::new();
    poller.schedule(Job::Gen(finishes_after(1, Rc::new(Cell::new(0)))));
    poller.schedule(Job::Gen(finishes_after(1, Rc::new(Cell::new(0)))));
    assert!(!poller.done());
    assert_eq!(poller.len(), 2);
}

#[test]
fn run_terminates_when_every_task_finishes() {
    let counts: Vec<Rc<Cell<u64>>> = (0..4).map(|_| Rc::new(Cell::new(0))).collect();
    let mut poller: Poller<Job> = Poller::new();
    for (k, c) in counts.iter().enumerate() {
        poller.schedule(Job::Gen(finishes_after(k as u64 + 1, c.clone())));
    }
    assert!(matches!(poller.run(), RunStop::Idle));
    assert!(poller.done());
    for (k, c) in counts.iter().enumerate() {
        assert_eq!(c.get(), k as u64 + 1);
    }
}

#[test]
fn finished_task_is_never_polled_again() {
    let polls = Rc::new(Cell::new(0));
    let slow = Rc::new(Cell::new(0));
    let mut poller: Poller<Job> = Poller::new();
    poller.schedule(Job::Gen(finishes_after(1, polls.clone())));
    poller.schedule(Job::Gen(finishes_after(50, slow.clone())));
    assert!(matches!(poller.run(), RunStop::Idle));
    assert_eq!(polls.get(), 1);
    assert_eq!(slow.get(), 50);
}

#[test]
fn no_sibling_is_lost() {
    let a = Rc::new(Cell::new(0));
    let b = Rc::new(Cell::new(0));
    let c = Rc::new(Cell::new(0));
    let mut poller: Poller<Job> = Poller::new();
    poller.schedule(Job::Gen(finishes_after(1, a.clone())));
    poller.schedule(Job::Gen(finishes_after(3, b.clone())));
    poller.schedule(Job::Gen(finishes_after(5, c.clone())));
    assert!(matches!(poller.run(), RunStop::Idle));
    assert_eq!((a.get(), b.get(), c.get()), (1, 3, 5));
}

#[test]
fn first_finished_task_swaps_in_the_last() {
    let mut poller: Poller<Job> = Poller::new();
    poller.schedule(Job::Gen(finishes_after(1, Rc::new(Cell::new(0)))));
    poller.schedule(Job::Gen(finishes_after(3, Rc::new(Cell::new(0)))));
    poller.schedule(Job::Gen(finishes_after(3, Rc::new(Cell::new(0)))));
    match poller.step() {
        Step::Finished { index, blocking, scheduled } => {
            assert_eq!(index, 0);
            assert!(!blocking);
            assert!(!scheduled);
        }
        _ => panic!("the first task finishes on its first poll"),
    }
    assert_eq!(poller.len(), 2);
    // The cursor moved on, so the task swapped into slot 0 waits a sweep.
    assert!(matches!(poller.step(), Step::Pending { index: 1, blocking: false }));
    assert!(matches!(poller.step(), Step::Pending { index: 0, blocking: false }));
}

#[test]
fn continuation_runs_once_and_its_task_completes() {
    let calls = Rc::new(Cell::new(0));
    let seen = Rc::new(Cell::new(0));
    let follow = Rc::new(Cell::new(0));
    let mut first = finishes_after(2, Rc::new(Cell::new(0)));
    let (c, s, f) = (calls.clone(), seen.clone(), follow.clone());
    first.then(Box::new(move |v: Option<u64>| {
        c.set(c.get() + 1);
        s.set(v.unwrap_or(0));
        Some(Job::Gen(finishes_after(4, f.clone())))
    }));
    let mut poller: Poller<Job> = Poller::new();
    poller.schedule(Job::Gen(first));
    assert!(matches!(poller.run(), RunStop::Idle));
    assert_eq!(calls.get(), 1);
    assert_eq!(seen.get(), 2);
    assert_eq!(follow.get(), 4);
}

#[test]
fn later_continuation_replaces_earlier() {
    let which = Rc::new(Cell::new(0));
    let mut task = finishes_after(1, Rc::new(Cell::new(0)));
    let (w1, w2) = (which.clone(), which.clone());
    task.then(Box::new(move |_| {
        w1.set(1);
        None
    }));
    task.then(Box::new(move |_| {
        w2.set(2);
        None
    }));
    let mut poller: Poller<Job> = Poller::new();
    poller.schedule(Job::Gen(task));
    assert!(matches!(poller.run(), RunStop::Idle));
    assert_eq!(which.get(), 2);
}

#[test]
fn unhandled_rejection_stops_the_run() {
    let other = Rc::new(Cell::new(0));
    let mut poller: Poller<Job> = Poller::new();
    poller.schedule(Job::Gen(rejects("boom")));
    poller.schedule(Job::Gen(finishes_after(1000, other.clone())));
    match poller.run() {
        RunStop::Unhandled(e) => assert_eq!(e, "boom"),
        _ => panic!("an unhandled rejection must end the run"),
    }
    assert_eq!(other.get(), 0);
    assert_eq!(poller.len(), 1);
}

#[test]
fn error_continuation_recovers() {
    let got = Rc::new(Cell::new(false));
    let redo = Rc::new(Cell::new(0));
    let mut task = rejects("bad");
    let (g, r) = (got.clone(), redo.clone());
    task.catch(Box::new(move |e: String| {
        g.set(e == "bad");
        Some(Job::Gen(finishes_after(2, r.clone())))
    }));
    let mut poller: Poller<Job> = Poller::new();
    poller.schedule(Job::Gen(task));
    assert!(matches!(poller.run(), RunStop::Idle));
    assert!(got.get());
    assert_eq!(redo.get(), 2);
}

#[test]
fn blocking_task_runs_alone() {
    let counter = Rc::new(Cell::new(0u64));
    let at_finish = Rc::new(Cell::new(u64::MAX));
    let (c, a) = (counter.clone(), at_finish.clone());
    let mut blocker = gen(
        Box::new(move |d: Option<u64>| {
            let k = d.unwrap_or(0) + 1;
            if k == 25 {
                a.set(c.get());
                (Some(k), PromiseState::Done(None))
            } else {
                (Some(k), PromiseState::Pending)
            }
        }),
        Some(0),
    );
    blocker.block();
    assert!(blocker.should_block());
    let cc = counter.clone();
    let counting = gen(
        Box::new(move |d: Option<u64>| {
            cc.set(cc.get() + 1);
            if cc.get() == 10 {
                (d, PromiseState::Done(None))
            } else {
                (d, PromiseState::Pending)
            }
        }),
        None,
    );
    let mut poller: Poller<Job> = Poller::new();
    poller.schedule(Job::Gen(blocker));
    poller.schedule(Job::Gen(counting));
    assert!(matches!(poller.step(), Step::Pending { index: 0, blocking: true }));
    assert!(matches!(poller.run(), RunStop::Idle));
    assert_eq!(at_finish.get(), 0);
    assert_eq!(counter.get(), 10);
}

#[test]
fn run_for_spends_exactly_its_polls() {
    let polls = Rc::new(Cell::new(0));
    let mut poller: Poller<Job> = Poller::new();
    poller.schedule(Job::Gen(finishes_after(100, polls.clone())));
    assert!(matches!(poller.run_for(0), RunStop::OutOfPolls));
    assert_eq!(polls.get(), 0);
    assert!(matches!(poller.run_for(7), RunStop::OutOfPolls));
    assert_eq!(polls.get(), 7);
    assert!(matches!(poller.run_for(1000), RunStop::Idle));
    assert_eq!(polls.get(), 100);
}

#[test]
fn timeout_fires_at_its_delay() {
    let fired = Rc::new(Cell::new(0));
    let f = fired.clone();
    let t: Timeout<Action> = set_timeout(Box::new(move || f.set(f.get() + 1)), 30);
    assert!(matches!(t.poll_at::<u64, String>(0), PromiseState::Pending));
    assert!(matches!(t.poll_at::<u64, String>(29), PromiseState::Pending));
    assert_eq!(fired.get(), 0);
    assert!(matches!(t.poll_at::<u64, String>(30), PromiseState::Done(None)));
    assert_eq!(fired.get(), 1);
}

#[test]
fn timeout_never_fires_early() {
    for _ in 0..3 {
        let fired = Rc::new(Cell::new(0));
        let f = fired.clone();
        let start = Instant::now();
        let mut poller: Poller<Job> = Poller::new();
        poller.schedule(Job::Once(set_timeout(Box::new(move || f.set(f.get() + 1)), 20)));
        assert!(matches!(poller.run(), RunStop::Idle));
        assert!(start.elapsed().as_millis() >= 20);
        assert_eq!(fired.get(), 1);
    }
}

#[test]
fn interval_is_due_after_its_period() {
    let t: Interval<Action> = set_interval(Box::new(|| {}), 10);
    assert!(!t.due(0));
    assert!(!t.due(10));
    assert!(t.due(11));
}

#[test]
fn interval_keeps_firing_while_counter_runs() {
    const TARGET: u64 = 10_000_000;
    let ticks = Rc::new(Cell::new(0u64));
    let n = Rc::new(Cell::new(0u64));
    let t = ticks.clone();
    let nn = n.clone();
    let mut poller: Poller<Job> = Poller::new();
    poller.schedule(Job::Every(set_interval(Box::new(move || t.set(t.get() + 1)), 10)));
    poller.schedule(Job::Gen(gen(
        Box::new(move |d: Option<u64>| {
            nn.set(nn.get() + 1);
            if nn.get() == TARGET {
                (d, PromiseState::Done(None))
            } else {
                (d, PromiseState::Pending)
            }
        }),
        None,
    )));
    let mut last_ticks = 0;
    while poller.len() == 2 {
        assert!(matches!(poller.run_for(1_000_000), RunStop::OutOfPolls));
        assert!(ticks.get() >= last_ticks);
        last_ticks = ticks.get();
    }
    assert_eq!(n.get(), TARGET);
    assert!(ticks.get() > 0);
    assert_eq!(poller.len(), 1);
}

#[test]
fn zero_delay_timeout_fires_on_first_poll() {
    let fired = Rc::new(Cell::new(0));
    let f = fired.clone();
    let mut t: Timeout<Action> = set_timeout(Box::new(move || f.set(f.get() + 1)), 0);
    let r = <Timeout<Action> as Promise<u64, String, Job>>::poll(&mut t);
    assert!(matches!(r, PromiseState::Done(None)));
    assert_eq!(fired.get(), 1);
}

#[test]
fn interval_tick_fires_only_after_its_period() {
    let fired = Rc::new(Cell::new(0));
    let f = fired.clone();
    let mut t: Interval<Action> = set_interval(Box::new(move || f.set(f.get() + 1)), 10);
    assert!(!t.tick(10, Instant::now()));
    assert_eq!(fired.get(), 0);
    assert!(t.tick(11, Instant::now()));
    assert_eq!(fired.get(), 1);
    assert!(!t.tick(0, Instant::now()));
    assert_eq!(fired.get(), 1);
}
