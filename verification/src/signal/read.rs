//! The read-only views of a signal.

use crate::arena::Stored;
use crate::node::{AnySubscriber, NodeKind, ReactiveNodeState};
use crate::runtime::Runtime;
use crate::signal::ArcRwSignal;
use vstd::prelude::*;

verus! {

/// The read-only view of an arena-held signal.
#[derive(Clone, Copy, PartialEq, Eq, Structural, Debug)]
pub struct ReadSignal {
    pub inner: Stored,
}

impl ReadSignal {
    /// The cell behind the signal, as a read-only view, or `None` once the
    /// signal has been disposed.
    pub fn get<T>(&self, rt: &Runtime<T>) -> (cell: Option<ArcReadSignal>)
        ensures
            cell == (if rt@.is_a(self.inner.slot, NodeKind::Signal) {
                Some(ArcReadSignal(ArcRwSignal { node: self.inner.slot }))
            } else {
                None
            }),
    {
        if rt.is_a(self.inner.slot, NodeKind::Signal) {
            Some(ArcReadSignal(ArcRwSignal { node: self.inner.slot }))
        } else {
            None
        }
    }

    /// Disposes the signal. Doing so again changes nothing.
    pub fn dispose<T>(&self, rt: &mut Runtime<T>)
        ensures
            final(rt).wake_requests() == old(rt).wake_requests(),
            forall|slot: usize| #[trigger]
                final(rt).has_channel(slot) == (old(rt).has_channel(slot) && (final(rt)@.is_live(slot) || !old(rt)@.is_live(self.inner.slot))),
            final(rt)@ == old(rt)@.dispose_node(self.inner.slot),
    {
        self.inner.dispose(rt);
    }
}

/// The read-only view of a cell.
///
/// It names the same cell as the [`ArcRwSignal`] it was made from and
/// offers what that offers, except writing.
#[derive(Clone, Copy, PartialEq, Eq, Structural, Debug)]
pub struct ArcReadSignal(pub ArcRwSignal);

impl ArcReadSignal {
    /// Tells the cell that its value has changed.
    pub fn mark_dirty<T>(&self, rt: &mut Runtime<T>)
        ensures
            final(rt).keeps_channels(old(rt)),
            final(rt).wake_requests() == old(rt).wake_requests() + old(rt)@.notice_list(self.0.node, false),
            final(rt)@ == old(rt)@.mark_dirty(self.0.node),
    {
        self.0.mark_dirty(rt);
    }

    /// A signal has nothing upstream: there is nothing to check.
    pub fn mark_check<T>(&self, rt: &mut Runtime<T>)
        ensures
            final(rt).keeps_channels(old(rt)),
            final(rt).wake_requests() == old(rt).wake_requests() + old(rt)@.notice_list(self.0.node, true),
            final(rt)@ == old(rt)@.mark_check(self.0.node),
    {
        self.0.mark_check(rt);
    }

    /// Marks everything downstream of the cell.
    pub fn mark_subscribers_check<T>(&self, rt: &mut Runtime<T>)
        ensures
            final(rt).keeps_channels(old(rt)),
            final(rt).wake_requests() == old(rt).wake_requests() + old(rt)@.wake_list(self.0.node),
            final(rt)@ == old(rt)@.propagated(self.0.node),
    {
        self.0.mark_subscribers_check(rt);
    }

    /// Reports whether the cell was written since it was last pulled; the
    /// cell is `Clean` afterwards.
    pub fn update_if_necessary<T>(&self, rt: &mut Runtime<T>) -> (written: bool)
        ensures
            final(rt).is_silent_since(old(rt)),
            final(rt)@ == old(rt)@.poll_signal(self.0.node),
            written == (old(rt)@.is_a(self.0.node, NodeKind::Signal)
                && old(rt)@.nodes[self.0.node as int].state == ReactiveNodeState::Dirty),
    {
        self.0.update_if_necessary(rt)
    }

    /// Records `subscriber` as depending on the cell.
    pub fn add_subscriber<T>(&self, rt: &mut Runtime<T>, subscriber: AnySubscriber)
        ensures
            final(rt).is_silent_since(old(rt)),
            final(rt)@ == old(rt)@.add_edge(self.0.node, subscriber.0),
    {
        self.0.add_subscriber(rt, subscriber);
    }

    /// Forgets that `subscriber` depends on the cell.
    pub fn remove_subscriber<T>(&self, rt: &mut Runtime<T>, subscriber: &AnySubscriber)
        ensures
            final(rt).is_silent_since(old(rt)),
            final(rt)@ == old(rt)@.remove_edge(self.0.node, subscriber.0),
    {
        self.0.remove_subscriber(rt, subscriber);
    }

    /// Forgets every subscriber of the cell.
    pub fn clear_subscribers<T>(&self, rt: &mut Runtime<T>)
        ensures
            final(rt).is_silent_since(old(rt)),
            final(rt)@ == old(rt)@.clear_subscribers(self.0.node),
    {
        self.0.clear_subscribers(rt);
    }

    /// What `fun` makes of the value, without an edge. `None` once the cell
    /// has been disposed; `fun` is not called then.
    pub fn try_with_untracked<T, U, F: FnOnce(&T) -> U>(&self, rt: &Runtime<T>, fun: F) -> (out:
        Option<U>)
        requires
            forall|v: &T| call_requires(fun, (v,)),
        ensures
            match (if rt@.is_a(self.0.node, NodeKind::Signal) {
                rt@.nodes[self.0.node as int].value
            } else {
                None
            }) {
                Some(v) => out matches Some(u) && call_ensures(fun, (&v,), u),
                None => out is None,
            },
    {
        self.0.try_with_untracked(rt, fun)
    }

    /// A tracked read: the value, and an edge from the cell to the
    /// observer, if one is set. `None` once the cell has been disposed.
    pub fn try_get<T: Copy>(&self, rt: &mut Runtime<T>) -> (value: Option<T>)
        ensures
            final(rt).is_silent_since(old(rt)),
            final(rt)@ == (if old(rt)@.is_a(self.0.node, NodeKind::Signal) {
                old(rt)@.track(self.0.node)
            } else {
                old(rt)@
            }),
            value == (if old(rt)@.is_a(self.0.node, NodeKind::Signal) {
                old(rt)@.nodes[self.0.node as int].value
            } else {
                None
            }),
    {
        self.0.try_get(rt)
    }
}

} // verus!
