//! Effects: subscribers that run for what they do, not for what they
//! return.

use crate::arena::Owner;
use crate::model::Pull;
use crate::node::{AnySource, AnySubscriber, NodeKind, ReactiveError, ReactiveNodeState};
use crate::notify::NotificationSender;
use crate::replay::{replay_pull, replay_run, Run, Trace};
use crate::runtime::{Reactions, Runtime};
use futures::channel::mpsc::Receiver;
use vstd::prelude::*;

verus! {

/// An effect.
///
/// The effect lives in the graph as a subscriber; its function belongs to
/// the [`Reactions`] passed to [`run`](Effect::run). Whoever creates the
/// effect gets the receiving end of its wake-up channel and is expected to
/// call `run` once for every wake-up that arrives, until the channel
/// closes.
#[derive(Clone, Copy, PartialEq, Eq, Structural, Debug)]
pub struct Effect {
    pub node: usize,
    /// The scope that the effect's function runs in. What the function
    /// allocates goes with the effect.
    pub owner: Owner,
}

impl Effect {
    /// A new effect with a scope of its own below the current one.
    ///
    /// One wake-up is sent at once, so that the effect runs a first time
    /// and finds its sources. The channel closes when the effect is
    /// disposed, by hand or with the scope it was created in.
    pub fn new<T>(rt: &mut Runtime<T>) -> (made: (Effect, Receiver<()>))
        requires
            old(rt)@.nodes.len() < usize::MAX,
            old(rt)@.owners.len() < usize::MAX,
        ensures
            final(rt).wake_requests() == old(rt).wake_requests(),
            final(rt).has_channel(made.0.node),
            forall|other: usize|
                other != made.0.node ==> #[trigger] final(rt).has_channel(other) == old(rt).has_channel(
                    other,
                ),
            final(rt)@ == old(rt)@.allocate(
                NodeKind::Effect,
                ReactiveNodeState::Dirty,
                None,
            ).new_owner(),
            made.0.node == old(rt)@.nodes.len(),
            made.0.owner.id == old(rt)@.owners.len(),
    {
        let (mut observer, rx) = NotificationSender::channel();
        observer.notify();
        let node = rt.create_effect(observer);
        let owner = Owner::new(rt);
        (Effect { node, owner }, rx)
    }

    /// The effect's identity as a subscriber.
    pub fn to_any_subscriber(&self) -> (subscriber: AnySubscriber)
        ensures
            subscriber == AnySubscriber(self.node),
    {
        AnySubscriber(self.node)
    }

    /// One run, as the effect's task makes it on waking: the effect's old
    /// edges are dropped, its function runs with the effect as observer and
    /// the effect's scope as current scope, and what it returns is stored.
    ///
    /// The observer and the current scope are put back afterwards.
    /// `Disposed` where the effect is gone: its task has nothing left to
    /// do.
    pub fn run<T: Copy + PartialEq, R: Reactions<T>>(&self, rt: &mut Runtime<T>, fns: &mut R) -> (
        outcome: Result<(), ReactiveError>)
        ensures
            old(rt)@.is_a(self.node, NodeKind::Effect) ==> exists|run: Option<Run<T, R>>|
                {
                    let r = #[trigger] replay_run(
                        old(rt)@.entered(self.owner.id),
                        *old(fns),
                        old(rt).wake_requests(),
                        self.node,
                        run,
                    );
                    &&& r.fits
                    &&& r.table == *final(fns)
                    &&& r.requests == final(rt).wake_requests()
                    &&& final(rt)@ == r.graph.left(old(rt)@.current_owner)
                    &&& outcome == (match r.outcome {
                        Ok(_) => Ok::<(), ReactiveError>(()),
                        Err(e) => Err(e),
                    })
                    &&& run matches Some(ran) ==> exists|
                        table: &mut R,
                        during: &mut Runtime<T>,
                        node: usize,
                        previous: Option<T>,
                        value: T,
                    |
                        {
                            &&& #[trigger] call_ensures(R::run, (table, during, node, previous), value)
                            &&& node == ran.node && previous == ran.previous && value == ran.value
                            &&& *table == ran.table_before && *final(table) == ran.table_after
                            &&& (*during)@ == ran.before && (*final(during))@ == ran.after
                            &&& (*during).wake_requests() == ran.requests_before
                            &&& (*final(during)).wake_requests() == ran.requests_after
                        }
                },
            final(rt)@.observer == old(rt)@.observer,
            final(rt)@.current_owner == (if old(rt)@.current_owner matches Some(o) && o
                >= final(rt)@.owners.len() {
                None
            } else {
                old(rt)@.current_owner
            }),
            !old(rt)@.is_a(self.node, NodeKind::Effect) ==> {
                &&& outcome == Err::<(), ReactiveError>(ReactiveError::Disposed)
                &&& final(rt)@ == old(rt)@
                &&& *final(fns) == *old(fns)
            },
            old(rt)@.is_a(self.node, NodeKind::Effect) && !old(rt)@.can_run(self.node) ==> {
                &&& outcome == Err::<(), ReactiveError>(ReactiveError::Cycle)
                &&& final(rt)@ == old(rt)@
                &&& *final(fns) == *old(fns)
            },
            old(rt)@.is_a(self.node, NodeKind::Effect) && old(rt)@.can_run(self.node) ==> exists|
                table: &mut R,
                during: &mut Runtime<T>,
                value: T,
            |
                {
                    &&& #[trigger] call_ensures(
                        R::run,
                        (table, during, self.node, old(rt)@.nodes[self.node as int].value),
                        value,
                    )
                    &&& *table == *old(fns)
                    &&& *final(table) == *final(fns)
                    &&& (*during)@ == (if self.owner.id < old(rt)@.owners.len() {
                        old(rt)@.with_current_owner(Some(self.owner.id))
                    } else {
                        old(rt)@
                    }).begin_run(self.node).with_observer(Some(AnySubscriber(self.node)))
                    &&& outcome == (if (*final(during))@.is_running(self.node) {
                        Ok::<(), ReactiveError>(())
                    } else {
                        Err::<(), ReactiveError>(ReactiveError::Disposed)
                    })
                    &&& exists|changed: bool|
                        {
                            let ended = #[trigger] (*final(during))@.with_observer(
                                old(rt)@.observer,
                            ).finish_run(self.node, value, changed);
                            final(rt)@ == ended.with_current_owner(
                                if old(rt)@.current_owner matches Some(o) && o >= ended.owners.len() {
                                    None
                                } else {
                                    old(rt)@.current_owner
                                },
                            )
                        }
                },
            outcome is Ok ==> final(rt)@.is_live(self.node) && final(rt)@.nodes[self.node as int].value
                is Some,
    {
        rt.run_effect(fns, self.node, self.owner.id)
    }

    /// Replaces the value that the effect produced last by what `fun`
    /// makes of it, and hands out what else `fun` returns.
    ///
    /// `None` before the first run, after disposal, and while a run of the
    /// effect is under way: for the length of a run the value belongs to
    /// the run. `fun` is not called then, and nothing changes.
    pub fn with_value_mut<T: Copy, U, F: FnOnce(T) -> (T, U)>(
        &self,
        rt: &mut Runtime<T>,
        fun: F,
    ) -> (out: Option<U>)
        requires
            forall|v: T| call_requires(fun, (v,)),
        ensures
            final(rt).is_silent_since(old(rt)),
            old(rt)@.holds_value_at_rest(self.node) ==> exists|made: (T, U)|
                {
                    &&& #[trigger] call_ensures(
                        fun,
                        (old(rt)@.nodes[self.node as int].value.unwrap(),),
                        made,
                    )
                    &&& out == Some(made.1)
                    &&& final(rt)@ == old(rt)@.amended(self.node, made.0)
                },
            !old(rt)@.holds_value_at_rest(self.node) ==> out is None && final(rt)@ == old(rt)@,
    {
        rt.with_value_mut(self.node, fun)
    }

    /// Asks the effect's sources, in the order it read them, whether they
    /// have changed, and wakes the effect once one of them has. The effect
    /// is not run from here.
    pub fn update_if_necessary<T: Copy + PartialEq, R: Reactions<T>>(
        &self,
        rt: &mut Runtime<T>,
        fns: &mut R,
    ) -> (outcome: Result<bool, ReactiveError>)
        ensures
            exists|trace: Trace<T, R>|
                {
                    let r = #[trigger] replay_pull(
                        old(rt)@,
                        *old(fns),
                        old(rt).wake_requests(),
                        self.node,
                        usize::MAX as nat,
                        trace,
                    );
                    &&& r.fits
                    &&& r.requests == final(rt).wake_requests()
                    &&& r.graph == final(rt)@
                    &&& r.table == *final(fns)
                    &&& r.outcome == outcome
                    &&& forall|run: Run<T, R>| #[trigger] trace.holds(run) ==> exists|
                        table: &mut R,
                        during: &mut Runtime<T>,
                        node: usize,
                        previous: Option<T>,
                        value: T,
                    |
                        {
                            &&& #[trigger] call_ensures(R::run, (table, during, node, previous), value)
                            &&& node == run.node && previous == run.previous && value == run.value
                            &&& *table == run.table_before && *final(table) == run.table_after
                            &&& (*during)@ == run.before && (*final(during))@ == run.after
                            &&& (*during).wake_requests() == run.requests_before
                            &&& (*final(during)).wake_requests() == run.requests_after
                        }
                },
            final(rt)@.observer == old(rt)@.observer,
            old(rt)@.plan(self.node) == Pull::Absent ==> {
                &&& outcome == Err::<bool, ReactiveError>(ReactiveError::Disposed)
                &&& final(rt)@ == old(rt)@
                &&& *final(fns) == *old(fns)
            },
            old(rt)@.plan(self.node) == Pull::Busy ==> {
                &&& outcome == Err::<bool, ReactiveError>(ReactiveError::Cycle)
                &&& final(rt)@ == old(rt)@
                &&& *final(fns) == *old(fns)
            },
            old(rt)@.is_a(self.node, NodeKind::Effect) && old(rt)@.can_run(self.node)
                && old(rt)@.is_pending(self.node) && old(rt)@.sources_resolved(self.node) ==> {
                &&& outcome == Ok::<bool, ReactiveError>(false)
                &&& final(rt)@ == old(rt)@.asked(self.node)
                &&& *final(fns) == *old(fns)
            },
            old(rt)@.is_a(self.node, NodeKind::Effect) && old(rt)@.can_run(self.node)
                && !old(rt)@.is_pending(self.node) ==> {
                &&& outcome == Ok::<bool, ReactiveError>(true)
                &&& final(rt)@ == old(rt)@
                &&& *final(fns) == *old(fns)
            },
    {
        rt.update_if_necessary(fns, self.node)
    }

    /// Wakes the effect: something upstream may have changed.
    pub fn mark_check<T>(&self, rt: &mut Runtime<T>)
        ensures
            final(rt).keeps_channels(old(rt)),
            final(rt).wake_requests() == old(rt).wake_requests() + old(rt)@.notice_list(self.node, true),
            final(rt)@ == old(rt)@.mark_check(self.node),
    {
        rt.mark_check(self.node);
    }

    /// Wakes the effect: something upstream has changed.
    pub fn mark_dirty<T>(&self, rt: &mut Runtime<T>)
        ensures
            final(rt).keeps_channels(old(rt)),
            final(rt).wake_requests() == old(rt).wake_requests() + old(rt)@.notice_list(self.node, false),
            final(rt)@ == old(rt)@.mark_dirty(self.node),
    {
        rt.mark_dirty(self.node);
    }

    /// Records `source` as something the effect depends on.
    pub fn add_source<T>(&self, rt: &mut Runtime<T>, source: AnySource)
        ensures
            final(rt).is_silent_since(old(rt)),
            final(rt)@ == old(rt)@.add_edge(source.0, self.node),
    {
        rt.add_edge(source.0, self.node);
    }

    /// The effect forgets its sources, and they forget it.
    pub fn clear_sources<T>(&self, rt: &mut Runtime<T>)
        ensures
            final(rt).is_silent_since(old(rt)),
            final(rt)@ == old(rt)@.clear_sources(self.node),
    {
        rt.clear_sources(self.node);
    }

    /// Disposes the effect with its scope: the slot is emptied, the wake-up
    /// channel closes, and the cleanups registered in the scope are handed
    /// out to be run.
    pub fn dispose<T>(&self, rt: &mut Runtime<T>) -> (tokens: Vec<usize>)
        ensures
            final(rt).wake_requests() == old(rt).wake_requests(),
            forall|slot: usize| #[trigger]
                final(rt).has_channel(slot) == (old(rt).has_channel(slot) && final(rt)@.is_live(slot)),
            final(rt)@ == old(rt)@.dispose_owner(self.owner.id).dispose_node(self.node),
            old(rt)@.is_due_list(self.owner.id, tokens@),
    {
        let tokens = rt.dispose_owner(self.owner.id);
        let _was_live = rt.dispose_node(self.node);
        tokens
    }
}

} // verus!
