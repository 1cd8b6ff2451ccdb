//! Memos: cached values derived from other nodes.

use crate::arena::Stored;
use crate::model::Pull;
use crate::node::{
    differs, AnySource, AnySubscriber, NodeKind, ReactiveError, ReactiveNodeState,
};
use crate::replay::{replay_pull, Run, Trace};
use crate::runtime::{Reactions, Runtime};
use vstd::prelude::*;
use vstd::std_specs::cmp::PartialEqSpec;

verus! {

/// A memo: a value computed from other nodes and cached until one of them
/// changes.
///
/// The memo is a subscriber of what its function reads and a source for
/// whoever reads the memo. Its function belongs to the [`Reactions`] that
/// are passed to every pull.
#[derive(Clone, Copy, PartialEq, Eq, Structural, Debug)]
pub struct Memo {
    pub inner: Stored,
}

impl Memo {
    /// A new memo, owned by the current scope. It has no value yet and is
    /// `Dirty`: the first read computes it.
    pub fn new<T>(rt: &mut Runtime<T>) -> (memo: Self)
        requires
            old(rt)@.nodes.len() < usize::MAX,
        ensures
            final(rt).is_silent_since(old(rt)),
            final(rt)@ == old(rt)@.allocate(NodeKind::Memo, ReactiveNodeState::Dirty, None),
            memo.inner.slot == old(rt)@.nodes.len(),
    {
        Memo { inner: Stored::new(rt.create_memo()) }
    }

    /// The slot of the memo, by which [`Reactions::run`] is told which
    /// function to run.
    pub fn node(&self) -> (node: usize)
        ensures
            node == self.inner.slot,
    {
        self.inner.slot
    }

    /// The memo's identity as a source.
    pub fn to_any_source(&self) -> (source: AnySource)
        ensures
            source == AnySource(self.inner.slot),
    {
        AnySource(self.inner.slot)
    }

    /// The memo's identity as a subscriber.
    pub fn to_any_subscriber(&self) -> (subscriber: AnySubscriber)
        ensures
            subscriber == AnySubscriber(self.inner.slot),
    {
        AnySubscriber(self.inner.slot)
    }

    /// A tracked read: the memo is brought up to date, an edge to the
    /// observer is recorded, and the value is returned.
    ///
    /// A `Clean` memo answers from its cache: no function is called, and
    /// the graph gains at most the edge to the observer. So does a memo in
    /// `Check` whose sources turn out to be unchanged. A memo that has been
    /// told of a change, or has never run, calls its function exactly
    /// once, stores what it returns, and marks what is downstream if that
    /// differs from the value before. `Disposed` where the memo is gone,
    /// `Cycle` where it is being recomputed further up the stack, which is
    /// what a function that reads its own memo gets.
    pub fn get<T: Copy + PartialEq, R: Reactions<T>>(&self, rt: &mut Runtime<T>, fns: &mut R) -> (
        outcome: Result<T, ReactiveError>)
        ensures
            old(rt)@.is_a(self.inner.slot, NodeKind::Memo) ==> exists|trace: Trace<T, R>|
                {
                    let r = #[trigger] replay_pull(
                        old(rt)@,
                        *old(fns),
                        old(rt).wake_requests(),
                        self.inner.slot,
                        usize::MAX as nat,
                        trace,
                    );
                    &&& r.fits
                    &&& r.requests == final(rt).wake_requests()
                    &&& r.table == *final(fns)
                    &&& final(rt)@ == r.after_read(self.inner.slot)
                    &&& outcome == r.read(self.inner.slot)
                    &&& forall|run: Run<T, R>| #[trigger] trace.holds(run) ==> exists|
                        table: &mut R,
                        during: &mut Runtime<T>,
                        node: usize,
                        previous: Option<T>,
                        value: T,
                    |
                        {
                            &&& #[trigger] call_ensures(R::run, (table, during, node, previous), value)
                            &&& node == run.node && previous == run.previous && value == run.value
                            &&& *table == run.table_before && *final(table) == run.table_after
                            &&& (*during)@ == run.before && (*final(during))@ == run.after
                            &&& (*during).wake_requests() == run.requests_before
                            &&& (*final(during)).wake_requests() == run.requests_after
                        }
                },
            final(rt)@.observer == old(rt)@.observer,
            !old(rt)@.is_a(self.inner.slot, NodeKind::Memo) ==> {
                &&& outcome == Err::<T, ReactiveError>(ReactiveError::Disposed)
                &&& final(rt)@ == old(rt)@
                &&& *final(fns) == *old(fns)
            },
            old(rt)@.is_a(self.inner.slot, NodeKind::Memo) && old(rt)@.plan(self.inner.slot)
                == Pull::Busy ==> {
                &&& outcome == Err::<T, ReactiveError>(ReactiveError::Cycle)
                &&& final(rt)@ == old(rt)@
                &&& *final(fns) == *old(fns)
            },
            old(rt)@.is_a(self.inner.slot, NodeKind::Memo) && old(rt)@.plan(self.inner.slot)
                == Pull::Fresh ==> {
                &&& old(rt)@.nodes[self.inner.slot as int].value matches Some(cached)
                &&& outcome == Ok::<T, ReactiveError>(cached)
                &&& final(rt)@ == old(rt)@.track(self.inner.slot)
                &&& *final(fns) == *old(fns)
            },
            old(rt)@.is_a(self.inner.slot, NodeKind::Memo) && old(rt)@.plan(self.inner.slot) == Pull::Unsure
                && old(rt)@.sources_resolved(self.inner.slot) ==> {
                &&& old(rt)@.nodes[self.inner.slot as int].value matches Some(cached)
                &&& outcome == Ok::<T, ReactiveError>(cached)
                &&& final(rt)@ == old(rt)@.asked(self.inner.slot).settle(self.inner.slot).track(self.inner.slot)
                &&& *final(fns) == *old(fns)
            },
            old(rt)@.is_a(self.inner.slot, NodeKind::Memo) && old(rt)@.plan(self.inner.slot) == Pull::Stale ==> exists|
                table: &mut R,
                during: &mut Runtime<T>,
                value: T,
            |
                {
                    &&& #[trigger] call_ensures(
                        R::run,
                        (table, during, self.inner.slot, old(rt)@.nodes[self.inner.slot as int].value),
                        value,
                    )
                    &&& *table == *old(fns)
                    &&& *final(table) == *final(fns)
                    &&& (*during)@ == old(rt)@.begin_run(self.inner.slot).with_observer(Some(AnySubscriber(self.inner.slot)))
                    &&& exists|changed: bool|
                        {
                            let ended = #[trigger] (*final(during))@.with_observer(
                                old(rt)@.observer,
                            ).finish_run(self.inner.slot, value, changed);
                            let answered = (*final(during))@.is_running(self.inner.slot) && ended.is_a(
                                self.inner.slot,
                                NodeKind::Memo,
                            );
                            &&& final(rt)@ == (if answered {
                                ended.track(self.inner.slot)
                            } else {
                                ended
                            })
                            &&& outcome == (if answered {
                                Ok::<T, ReactiveError>(value)
                            } else {
                                Err::<T, ReactiveError>(ReactiveError::Disposed)
                            })
                            &&& T::obeys_eq_spec() && (*final(during))@.is_running(self.inner.slot) ==> changed
                                == differs((*final(during))@.nodes[self.inner.slot as int].value, value)
                        }
                },
            outcome matches Ok(value) ==> final(rt)@.is_a(self.inner.slot, NodeKind::Memo)
                && final(rt)@.nodes[self.inner.slot as int].value == Some(value),
    {
        rt.read_memo(fns, self.inner.slot)
    }

    /// The cached value as it stands, without bringing the memo up to date
    /// and without an edge. `None` before the first read and after
    /// disposal.
    pub fn peek<T: Copy>(&self, rt: &Runtime<T>) -> (value: Option<T>)
        ensures
            value == (if rt@.is_a(self.inner.slot, NodeKind::Memo) {
                rt@.nodes[self.inner.slot as int].value
            } else {
                None
            }),
    {
        if rt.is_a(self.inner.slot, NodeKind::Memo) {
            rt.peek(self.inner.slot)
        } else {
            None
        }
    }

    /// Brings the memo up to date if it is not, and says whether its value
    /// changed in doing so. A `Clean` memo is left alone.
    pub fn update_if_necessary<T: Copy + PartialEq, R: Reactions<T>>(
        &self,
        rt: &mut Runtime<T>,
        fns: &mut R,
    ) -> (outcome: Result<bool, ReactiveError>)
        ensures
            exists|trace: Trace<T, R>|
                {
                    let r = #[trigger] replay_pull(
                        old(rt)@,
                        *old(fns),
                        old(rt).wake_requests(),
                        self.inner.slot,
                        usize::MAX as nat,
                        trace,
                    );
                    &&& r.fits
                    &&& r.requests == final(rt).wake_requests()
                    &&& r.graph == final(rt)@
                    &&& r.table == *final(fns)
                    &&& r.outcome == outcome
                    &&& forall|run: Run<T, R>| #[trigger] trace.holds(run) ==> exists|
                        table: &mut R,
                        during: &mut Runtime<T>,
                        node: usize,
                        previous: Option<T>,
                        value: T,
                    |
                        {
                            &&& #[trigger] call_ensures(R::run, (table, during, node, previous), value)
                            &&& node == run.node && previous == run.previous && value == run.value
                            &&& *table == run.table_before && *final(table) == run.table_after
                            &&& (*during)@ == run.before && (*final(during))@ == run.after
                            &&& (*during).wake_requests() == run.requests_before
                            &&& (*final(during)).wake_requests() == run.requests_after
                        }
                },
            final(rt)@.observer == old(rt)@.observer,
            old(rt)@.plan(self.inner.slot) == Pull::Absent ==> {
                &&& outcome == Err::<bool, ReactiveError>(ReactiveError::Disposed)
                &&& final(rt)@ == old(rt)@
                &&& *final(fns) == *old(fns)
            },
            old(rt)@.plan(self.inner.slot) == Pull::Busy ==> {
                &&& outcome == Err::<bool, ReactiveError>(ReactiveError::Cycle)
                &&& final(rt)@ == old(rt)@
                &&& *final(fns) == *old(fns)
            },
            old(rt)@.plan(self.inner.slot) == Pull::Fresh && old(rt)@.is_a(
                self.inner.slot,
                NodeKind::Memo,
            ) ==> {
                &&& outcome == Ok::<bool, ReactiveError>(false)
                &&& final(rt)@ == old(rt)@
                &&& *final(fns) == *old(fns)
            },
            old(rt)@.plan(self.inner.slot) == Pull::Unsure && !old(rt)@.is_a(self.inner.slot, NodeKind::Effect)
                && old(rt)@.sources_resolved(self.inner.slot) ==> {
                &&& outcome == Ok::<bool, ReactiveError>(false)
                &&& final(rt)@ == old(rt)@.asked(self.inner.slot).settle(self.inner.slot)
                &&& *final(fns) == *old(fns)
            },
            old(rt)@.is_a(self.inner.slot, NodeKind::Effect) && old(rt)@.can_run(self.inner.slot) && old(rt)@.is_pending(self.inner.slot)
                && old(rt)@.sources_resolved(self.inner.slot) ==> {
                &&& outcome == Ok::<bool, ReactiveError>(false)
                &&& final(rt)@ == old(rt)@.asked(self.inner.slot)
                &&& *final(fns) == *old(fns)
            },
            old(rt)@.is_a(self.inner.slot, NodeKind::Effect) && old(rt)@.can_run(self.inner.slot) && !old(rt)@.is_pending(self.inner.slot) ==> {
                &&& outcome == Ok::<bool, ReactiveError>(true)
                &&& final(rt)@ == old(rt)@
                &&& *final(fns) == *old(fns)
            },
            old(rt)@.plan(self.inner.slot) == Pull::Stale && !old(rt)@.is_a(self.inner.slot, NodeKind::Effect) ==> exists|
                table: &mut R,
                during: &mut Runtime<T>,
                value: T,
            |
                {
                    &&& #[trigger] call_ensures(
                        R::run,
                        (table, during, self.inner.slot, old(rt)@.nodes[self.inner.slot as int].value),
                        value,
                    )
                    &&& *table == *old(fns)
                    &&& *final(table) == *final(fns)
                    &&& (*during)@ == old(rt)@.begin_run(self.inner.slot).with_observer(Some(AnySubscriber(self.inner.slot)))
                    &&& final(rt)@ == (*final(during))@.with_observer(old(rt)@.observer).finish_run(
                        self.inner.slot,
                        value,
                        outcome == Ok::<bool, ReactiveError>(true),
                    )
                    &&& outcome is Ok <==> (*final(during))@.is_running(self.inner.slot)
                    &&& outcome is Err ==> outcome == Err::<bool, ReactiveError>(ReactiveError::Disposed)
                    &&& T::obeys_eq_spec() ==> (outcome == Ok::<bool, ReactiveError>(true)) == (
                    (*final(during))@.is_running(self.inner.slot) && differs(
                        (*final(during))@.nodes[self.inner.slot as int].value,
                        value,
                    ))
                },
            outcome is Ok && old(rt)@.is_a(self.inner.slot, NodeKind::Memo) ==> final(rt)@.is_live(
                self.inner.slot,
            ) && final(rt)@.nodes[self.inner.slot as int].value is Some,
    {
        rt.update_if_necessary(fns, self.inner.slot)
    }

    /// Tells the memo that it has to recompute: it is `Dirty`, and
    /// everything downstream is marked.
    pub fn mark_dirty<T>(&self, rt: &mut Runtime<T>)
        ensures
            final(rt).keeps_channels(old(rt)),
            final(rt).wake_requests() == old(rt).wake_requests() + old(rt)@.notice_list(self.inner.slot, false),
            final(rt)@ == old(rt)@.mark_dirty(self.inner.slot),
    {
        rt.mark_dirty(self.inner.slot);
    }

    /// Tells the memo that something upstream may have changed: it drops
    /// from `Clean` to `Check`, and everything downstream is marked.
    pub fn mark_check<T>(&self, rt: &mut Runtime<T>)
        ensures
            final(rt).keeps_channels(old(rt)),
            final(rt).wake_requests() == old(rt).wake_requests() + old(rt)@.notice_list(self.inner.slot, true),
            final(rt)@ == old(rt)@.mark_check(self.inner.slot),
    {
        rt.mark_check(self.inner.slot);
    }

    /// Disposes the memo. Doing so again changes nothing.
    pub fn dispose<T>(&self, rt: &mut Runtime<T>)
        ensures
            final(rt).wake_requests() == old(rt).wake_requests(),
            forall|slot: usize| #[trigger]
                final(rt).has_channel(slot) == (old(rt).has_channel(slot) && (final(rt)@.is_live(slot) || !old(rt)@.is_live(self.inner.slot))),
            final(rt)@ == old(rt)@.dispose_node(self.inner.slot),
    {
        self.inner.dispose(rt);
    }
}

} // verus!
