use std::marker::PhantomData;
use vstd::prelude::*;

verus! {

/// The result of one poll: still running, finished with a payload, or failed.
pub enum PromiseState<T, E> {
    Pending,
    Rejected(E),
    Done(T),
}

impl<T, E> PromiseState<T, E> {
    /// Whether the outcome is terminal (finished or failed).
    pub open spec fn terminal(&self) -> bool {
        !(self is Pending)
    }

    pub fn is_done(&self) -> (r: bool)
        ensures
            r == self.terminal(),
    {
        match self {
            PromiseState::Pending => false,
            _ => true,
        }
    }
}

/// A unit of cooperative progress, driven by repeated polling.
///
/// `T` is the completion payload, `E` the error, and `S` the type of the
/// follow-up task that a continuation may hand back for scheduling.
pub trait Promise<T, E, S>: Sized {
    /// `post` is the task after a poll of `self` that returned `r`. A kind of
    /// task that says nothing here may come out of a poll in any way.
    open spec fn polled(&self, post: Self, r: PromiseState<Option<T>, E>) -> bool {
        true
    }

    /// `next` is a follow-up that the completion continuation may hand back
    /// for `val`. A kind of task that says nothing here may hand back any.
    open spec fn chains(&self, val: Option<T>, next: Option<S>) -> bool {
        true
    }

    /// `r` is what `chain_err` may answer to `err`: `Ok` with the error
    /// continuation's follow-up, or `Err(err)` when none is registered. A kind
    /// of task that says nothing here may answer either way.
    open spec fn rejects_to(&self, err: E, r: Result<Option<S>, E>) -> bool {
        true
    }

    /// `b` is what `should_block` may answer. A kind of task that says
    /// nothing here may answer either way.
    open spec fn blocks_as(&self, b: bool) -> bool {
        true
    }

    /// Makes one step of progress; must return control promptly.
    fn poll(&mut self) -> (r: PromiseState<Option<T>, E>)
        ensures
            old(self).polled(*final(self), r),
    ;

    /// Runs the completion continuation, if one is registered, on the payload
    /// and returns the task it asks to schedule.
    fn chain(&self, val: Option<T>) -> (r: Option<S>)
        ensures
            self.chains(val, r),
    ;

    /// Runs the error continuation on `err` and returns the task it asks to
    /// schedule, or hands `err` back unchanged when no error continuation is
    /// registered.
    fn chain_err(&self, err: E) -> (r: Result<Option<S>, E>)
        ensures
            self.rejects_to(err, r),
            r matches Err(e) ==> e == err,
    ;

    /// Whether the task holds the scheduler: no other task is polled while it runs.
    fn should_block(&self) -> (r: bool)
        ensures
            self.blocks_as(r),
    ;

    /// Makes the task hold the scheduler until it reaches a terminal outcome,
    /// where the kind of task allows it.
    fn block(&mut self);
}

/// The step function and the continuations of a [`GenericPromise`].
#[verifier::reject_recursive_types(D)]
#[verifier::reject_recursive_types(T)]
#[verifier::reject_recursive_types(E)]
#[verifier::reject_recursive_types(S)]
struct Handlers<D, T, E, S, F, C, K>
    where
        F: Fn(Option<D>) -> (Option<D>, PromiseState<Option<T>, E>),
        C: Fn(Option<T>) -> Option<S>,
        K: Fn(E) -> Option<S>,
{
    f: F,
    chain: Option<C>,
    error: Option<K>,
    marker: PhantomData<(D, T, E, S)>,
}

impl<D, T, E, S, F, C, K> Handlers<D, T, E, S, F, C, K>
    where
        F: Fn(Option<D>) -> (Option<D>, PromiseState<Option<T>, E>),
        C: Fn(Option<T>) -> Option<S>,
        K: Fn(E) -> Option<S>,
{
    /// The step function and the continuations accept every input.
    #[verifier::type_invariant]
    spec fn callable(&self) -> bool {
        &&& forall|d: Option<D>| #[trigger] self.f.requires((d,))
        &&& self.chain matches Some(c) ==> forall|v: Option<T>| #[trigger] c.requires((v,))
        &&& self.error matches Some(k) ==> forall|e: E| #[trigger] k.requires((e,))
    }

    fn step(&self, d: Option<D>) -> (r: (Option<D>, PromiseState<Option<T>, E>))
        ensures
            self.f.ensures((d,), r),
    {
        proof {
            use_type_invariant(self);
        }
        (self.f)(d)
    }

    fn resolve(&self, val: Option<T>) -> (r: Option<S>)
        ensures
            match self.chain {
                Some(c) => c.ensures((val,), r),
                None => r is None,
            },
    {
        proof {
            use_type_invariant(self);
        }
        match &self.chain {
            Some(c) => c(val),
            None => None,
        }
    }

    fn recover(&self, err: E) -> (r: Result<Option<S>, E>)
        ensures
            match self.error {
                Some(k) => r matches Ok(n) && k.ensures((err,), n),
                None => r == Err::<Option<S>, E>(err),
            },
    {
        proof {
            use_type_invariant(self);
        }
        match &self.error {
            Some(k) => Ok(k(err)),
            None => Err(err),
        }
    }

    fn set_chain(&mut self, val: C)
        requires
            forall|v: Option<T>| #[trigger] val.requires((v,)),
        ensures
            final(self).chain == Some(val),
            final(self).error == old(self).error,
            final(self).f == old(self).f,
    {
        proof {
            use_type_invariant(&*self);
        }
        self.chain = Some(val);
    }

    fn set_error(&mut self, val: K)
        requires
            forall|e: E| #[trigger] val.requires((e,)),
        ensures
            final(self).error == Some(val),
            final(self).chain == old(self).chain,
            final(self).f == old(self).f,
    {
        proof {
            use_type_invariant(&*self);
        }
        self.error = Some(val);
    }
}

/// A task built from a step function over owned auxiliary data.
///
/// Each poll hands the data to the step function, which returns the data to
/// keep and the outcome. At most one completion and one error continuation are
/// registered at a time; registering another replaces the earlier one.
#[verifier::reject_recursive_types(D)]
#[verifier::reject_recursive_types(T)]
#[verifier::reject_recursive_types(E)]
#[verifier::reject_recursive_types(S)]
pub struct GenericPromise<D, T, E, S, F, C, K>
    where
        F: Fn(Option<D>) -> (Option<D>, PromiseState<Option<T>, E>),
        C: Fn(Option<T>) -> Option<S>,
        K: Fn(E) -> Option<S>,
{
    handlers: Handlers<D, T, E, S, F, C, K>,
    blocking: bool,
    data: Option<D>,
}

/// Builds a non-blocking task with no continuations from a step function and
/// its initial auxiliary data.
pub fn promise<D, T, E, S, F, C, K>(f: F, data: Option<D>) -> (r: GenericPromise<D, T, E, S, F, C, K>)
    where
        F: Fn(Option<D>) -> (Option<D>, PromiseState<Option<T>, E>),
        C: Fn(Option<T>) -> Option<S>,
        K: Fn(E) -> Option<S>,
    requires
        forall|d: Option<D>| #[trigger] f.requires((d,)),
    ensures
        r.step() == f,
        r.data() == data,
        r.continuation() == None::<C>,
        r.error_continuation() == None::<K>,
        !r.blocks(),
{
    let handlers = Handlers { f, chain: None, error: None, marker: PhantomData };
    GenericPromise { handlers, blocking: false, data }
}

impl<D, T, E, S, F, C, K> GenericPromise<D, T, E, S, F, C, K>
    where
        F: Fn(Option<D>) -> (Option<D>, PromiseState<Option<T>, E>),
        C: Fn(Option<T>) -> Option<S>,
        K: Fn(E) -> Option<S>,
{
    /// Whether the task holds the scheduler.
    pub closed spec fn blocks(&self) -> bool {
        self.blocking
    }

    /// The step function.
    pub closed spec fn step(&self) -> F {
        self.handlers.f
    }

    /// The auxiliary data.
    pub closed spec fn data(&self) -> Option<D> {
        self.data
    }

    /// The completion continuation, if one is registered.
    pub closed spec fn continuation(&self) -> Option<C> {
        self.handlers.chain
    }

    /// The error continuation, if one is registered.
    pub closed spec fn error_continuation(&self) -> Option<K> {
        self.handlers.error
    }

    /// Registers the completion continuation, replacing any earlier one.
    pub fn then(&mut self, val: C)
        requires
            forall|v: Option<T>| #[trigger] val.requires((v,)),
        ensures
            final(self).continuation() == Some(val),
            final(self).error_continuation() == old(self).error_continuation(),
            final(self).step() == old(self).step(),
            final(self).data() == old(self).data(),
            final(self).blocks() == old(self).blocks(),
    {
        self.handlers.set_chain(val);
    }

    /// Registers the error continuation, replacing any earlier one.
    pub fn catch(&mut self, val: K)
        requires
            forall|e: E| #[trigger] val.requires((e,)),
        ensures
            final(self).error_continuation() == Some(val),
            final(self).continuation() == old(self).continuation(),
            final(self).step() == old(self).step(),
            final(self).data() == old(self).data(),
            final(self).blocks() == old(self).blocks(),
    {
        self.handlers.set_error(val);
    }
}

impl<D, T, E, S, F, C, K> Promise<T, E, S> for GenericPromise<D, T, E, S, F, C, K>
    where
        F: Fn(Option<D>) -> (Option<D>, PromiseState<Option<T>, E>),
        C: Fn(Option<T>) -> Option<S>,
        K: Fn(E) -> Option<S>,
{
    /// The step function ran on the data and gave the new data and `r`;
    /// nothing else changed.
    open spec fn polled(&self, post: Self, r: PromiseState<Option<T>, E>) -> bool {
        &&& self.step().ensures((self.data(),), (post.data(), r))
        &&& post.step() == self.step()
        &&& post.continuation() == self.continuation()
        &&& post.error_continuation() == self.error_continuation()
        &&& post.blocks() == self.blocks()
    }

    open spec fn chains(&self, val: Option<T>, next: Option<S>) -> bool {
        match self.continuation() {
            Some(c) => c.ensures((val,), next),
            None => next is None,
        }
    }

    open spec fn rejects_to(&self, err: E, r: Result<Option<S>, E>) -> bool {
        match self.error_continuation() {
            Some(k) => r matches Ok(next) && k.ensures((err,), next),
            None => r == Err::<Option<S>, E>(err),
        }
    }

    open spec fn blocks_as(&self, b: bool) -> bool {
        b == self.blocks()
    }

    fn poll(&mut self) -> (r: PromiseState<Option<T>, E>) {
        let d = self.data.take();
        let (d, r) = self.handlers.step(d);
        self.data = d;
        r
    }

    fn chain(&self, val: Option<T>) -> (r: Option<S>) {
        self.handlers.resolve(val)
    }

    fn chain_err(&self, err: E) -> (r: Result<Option<S>, E>) {
        self.handlers.recover(err)
    }

    fn should_block(&self) -> (r: bool) {
        self.blocking
    }

    fn block(&mut self)
        ensures
            final(self).blocks(),
            final(self).step() == old(self).step(),
            final(self).continuation() == old(self).continuation(),
            final(self).error_continuation() == old(self).error_continuation(),
            final(self).data() == old(self).data(),
    {
        self.blocking = true;
    }
}

} // verus!
