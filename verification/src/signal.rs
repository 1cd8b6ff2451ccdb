//! Signals: mutable cells that others can depend on.

pub mod read;

use crate::arena::Stored;
use crate::node::{AnySource, AnySubscriber, NodeKind, ReactiveNodeState};
use crate::runtime::Runtime;
use crate::signal::read::{ArcReadSignal, ReadSignal};
use vstd::prelude::*;

verus! {

/// The cell behind a signal, named by its slot.
///
/// Every view of a signal, read-only or write-only, names the same cell:
/// views restrict what can be done, they hold no state of their own.
#[derive(Clone, Copy, PartialEq, Eq, Structural, Debug)]
pub struct ArcRwSignal {
    pub node: usize,
}

impl ArcRwSignal {
    /// A new cell holding `value`, `Clean`, owned by the current scope.
    pub fn new<T>(rt: &mut Runtime<T>, value: T) -> (cell: Self)
        requires
            old(rt)@.nodes.len() < usize::MAX,
        ensures
            final(rt).is_silent_since(old(rt)),
            final(rt)@ == old(rt)@.allocate(
                NodeKind::Signal,
                ReactiveNodeState::Clean,
                Some(value),
            ),
            cell.node == old(rt)@.nodes.len(),
    {
        ArcRwSignal { node: rt.create_signal(value) }
    }

    /// The cell's identity as a source.
    pub fn to_any_source(&self) -> (source: AnySource)
        ensures
            source == AnySource(self.node),
    {
        AnySource(self.node)
    }

    /// A tracked read: the value, and an edge from the cell to the
    /// observer, if one is set. `None` once the cell has been disposed.
    pub fn try_get<T: Copy>(&self, rt: &mut Runtime<T>) -> (value: Option<T>)
        ensures
            final(rt).is_silent_since(old(rt)),
            final(rt)@ == (if old(rt)@.is_a(self.node, NodeKind::Signal) {
                old(rt)@.track(self.node)
            } else {
                old(rt)@
            }),
            value == (if old(rt)@.is_a(self.node, NodeKind::Signal) {
                old(rt)@.nodes[self.node as int].value
            } else {
                None
            }),
    {
        rt.read(self.node)
    }

    /// The value, without an edge. `None` once the cell has been disposed.
    pub fn try_get_untracked<T: Copy>(&self, rt: &Runtime<T>) -> (value: Option<T>)
        ensures
            value == (if rt@.is_a(self.node, NodeKind::Signal) {
                rt@.nodes[self.node as int].value
            } else {
                None
            }),
    {
        if rt.is_a(self.node, NodeKind::Signal) {
            rt.peek(self.node)
        } else {
            None
        }
    }

    /// What `fun` makes of the value, without an edge. `None` once the cell
    /// has been disposed; `fun` is not called then.
    pub fn try_with_untracked<T, U, F: FnOnce(&T) -> U>(&self, rt: &Runtime<T>, fun: F) -> (out:
        Option<U>)
        requires
            forall|v: &T| call_requires(fun, (v,)),
        ensures
            match (if rt@.is_a(self.node, NodeKind::Signal) {
                rt@.nodes[self.node as int].value
            } else {
                None
            }) {
                Some(v) => out matches Some(u) && call_ensures(fun, (&v,), u),
                None => out is None,
            },
    {
        if rt.is_a(self.node, NodeKind::Signal) {
            rt.with_value(self.node, fun)
        } else {
            None
        }
    }

    /// A tracked read through `fun`: what `fun` makes of the value, and an
    /// edge from the cell to the observer, if one is set. `None` once the
    /// cell has been disposed; `fun` is not called then and nothing is
    /// tracked.
    pub fn try_with<T, U, F: FnOnce(&T) -> U>(&self, rt: &mut Runtime<T>, fun: F) -> (out: Option<
        U,
    >)
        requires
            forall|v: &T| call_requires(fun, (v,)),
        ensures
            final(rt).is_silent_since(old(rt)),
            final(rt)@ == (if old(rt)@.is_a(self.node, NodeKind::Signal) {
                old(rt)@.track(self.node)
            } else {
                old(rt)@
            }),
            match (if old(rt)@.is_a(self.node, NodeKind::Signal) {
                old(rt)@.nodes[self.node as int].value
            } else {
                None
            }) {
                Some(v) => out matches Some(u) && call_ensures(fun, (&v,), u),
                None => out is None,
            },
    {
        if rt.is_a(self.node, NodeKind::Signal) {
            let out = rt.with_value(self.node, fun);
            rt.track(self.node);
            out
        } else {
            None
        }
    }

    /// Replaces the value. The cell is `Dirty` whether or not the new value
    /// equals the old one, everything downstream is marked, and the effects
    /// among it are woken. Returns whether there was a live cell to write
    /// to.
    pub fn set<T>(&self, rt: &mut Runtime<T>, value: T) -> (written: bool)
        ensures
            final(rt).keeps_channels(old(rt)),
            final(rt).wake_requests() == old(rt).wake_requests() + old(rt)@.write_list(self.node),
            final(rt)@ == old(rt)@.write(self.node, value),
            written == old(rt)@.is_a(self.node, NodeKind::Signal),
    {
        rt.write(self.node, value)
    }

    /// Replaces the value by what `fun` makes of it, and pushes the change
    /// as [`set`](Self::set) does.
    pub fn update<T: Copy, F: FnOnce(T) -> T>(&self, rt: &mut Runtime<T>, fun: F) -> (updated: bool)
        requires
            forall|v: T| call_requires(fun, (v,)),
        ensures
            final(rt).keeps_channels(old(rt)),
            final(rt).wake_requests() == old(rt).wake_requests() + old(rt)@.write_list(self.node),
            updated == old(rt)@.is_a(self.node, NodeKind::Signal),
            !updated ==> final(rt)@ == old(rt)@,
            updated ==> old(rt)@.nodes[self.node as int].value is Some && exists|next: T|
                {
                    &&& #[trigger] call_ensures(
                        fun,
                        (old(rt)@.nodes[self.node as int].value.unwrap(),),
                        next,
                    )
                    &&& final(rt)@ == old(rt)@.write(self.node, next)
                },
    {
        rt.update(self.node, fun)
    }

    /// Tells the cell that its value has changed: it is `Dirty`, and
    /// everything downstream is marked.
    pub fn mark_dirty<T>(&self, rt: &mut Runtime<T>)
        ensures
            final(rt).keeps_channels(old(rt)),
            final(rt).wake_requests() == old(rt).wake_requests() + old(rt)@.notice_list(self.node, false),
            final(rt)@ == old(rt)@.mark_dirty(self.node),
    {
        rt.mark_dirty(self.node);
    }

    /// A signal has nothing upstream: there is nothing to check.
    pub fn mark_check<T>(&self, rt: &mut Runtime<T>)
        ensures
            final(rt).keeps_channels(old(rt)),
            final(rt).wake_requests() == old(rt).wake_requests() + old(rt)@.notice_list(self.node, true),
            final(rt)@ == old(rt)@.mark_check(self.node),
    {
        rt.mark_check(self.node);
    }

    /// Marks everything downstream of the cell.
    pub fn mark_subscribers_check<T>(&self, rt: &mut Runtime<T>)
        ensures
            final(rt).keeps_channels(old(rt)),
            final(rt).wake_requests() == old(rt).wake_requests() + old(rt)@.wake_list(self.node),
            final(rt)@ == old(rt)@.propagated(self.node),
    {
        rt.mark_subscribers_check(self.node);
    }

    /// Reports whether the cell was written since it was last pulled; the
    /// cell is `Clean` afterwards.
    pub fn update_if_necessary<T>(&self, rt: &mut Runtime<T>) -> (written: bool)
        ensures
            final(rt).is_silent_since(old(rt)),
            final(rt)@ == old(rt)@.poll_signal(self.node),
            written == (old(rt)@.is_a(self.node, NodeKind::Signal)
                && old(rt)@.nodes[self.node as int].state == ReactiveNodeState::Dirty),
    {
        rt.poll_signal(self.node)
    }

    /// Records `subscriber` as depending on the cell.
    pub fn add_subscriber<T>(&self, rt: &mut Runtime<T>, subscriber: AnySubscriber)
        ensures
            final(rt).is_silent_since(old(rt)),
            final(rt)@ == old(rt)@.add_edge(self.node, subscriber.0),
    {
        rt.add_edge(self.node, subscriber.0);
    }

    /// Forgets that `subscriber` depends on the cell.
    pub fn remove_subscriber<T>(&self, rt: &mut Runtime<T>, subscriber: &AnySubscriber)
        ensures
            final(rt).is_silent_since(old(rt)),
            final(rt)@ == old(rt)@.remove_edge(self.node, subscriber.0),
    {
        rt.remove_edge(self.node, subscriber.0);
    }

    /// Forgets every subscriber of the cell.
    pub fn clear_subscribers<T>(&self, rt: &mut Runtime<T>)
        ensures
            final(rt).is_silent_since(old(rt)),
            final(rt)@ == old(rt)@.clear_subscribers(self.node),
    {
        rt.clear_subscribers(self.node);
    }

    /// The read-only view of the cell.
    pub fn read_only(&self) -> (view: ArcReadSignal)
        ensures
            view.0 == *self,
    {
        ArcReadSignal(*self)
    }

    /// The write-only view of the cell.
    pub fn write_only(&self) -> (view: ArcWriteSignal)
        ensures
            view.0 == *self,
    {
        ArcWriteSignal(*self)
    }
}

/// The write-only view of a cell.
#[derive(Clone, Copy, PartialEq, Eq, Structural, Debug)]
pub struct ArcWriteSignal(pub ArcRwSignal);

impl ArcWriteSignal {
    /// Replaces the value, as [`ArcRwSignal::set`] does.
    pub fn set<T>(&self, rt: &mut Runtime<T>, value: T) -> (written: bool)
        ensures
            final(rt).keeps_channels(old(rt)),
            final(rt).wake_requests() == old(rt).wake_requests() + old(rt)@.write_list(self.0.node),
            final(rt)@ == old(rt)@.write(self.0.node, value),
            written == old(rt)@.is_a(self.0.node, NodeKind::Signal),
    {
        self.0.set(rt, value)
    }

    /// Replaces the value by what `fun` makes of it, as
    /// [`ArcRwSignal::update`] does.
    pub fn update<T: Copy, F: FnOnce(T) -> T>(&self, rt: &mut Runtime<T>, fun: F) -> (updated: bool)
        requires
            forall|v: T| call_requires(fun, (v,)),
        ensures
            final(rt).keeps_channels(old(rt)),
            final(rt).wake_requests() == old(rt).wake_requests() + old(rt)@.write_list(self.0.node),
            updated == old(rt)@.is_a(self.0.node, NodeKind::Signal),
            !updated ==> final(rt)@ == old(rt)@,
            updated ==> old(rt)@.nodes[self.0.node as int].value is Some && exists|next: T|
                {
                    &&& #[trigger] call_ensures(
                        fun,
                        (old(rt)@.nodes[self.0.node as int].value.unwrap(),),
                        next,
                    )
                    &&& final(rt)@ == old(rt)@.write(self.0.node, next)
                },
    {
        self.0.update(rt, fun)
    }
}

/// A signal: an arena-held cell that can be read and written.
#[derive(Clone, Copy, PartialEq, Eq, Structural, Debug)]
pub struct Signal {
    pub inner: Stored,
}

impl Signal {
    /// A new signal holding `value`, owned by the current scope.
    pub fn new<T>(rt: &mut Runtime<T>, value: T) -> (signal: Self)
        requires
            old(rt)@.nodes.len() < usize::MAX,
        ensures
            final(rt).is_silent_since(old(rt)),
            final(rt)@ == old(rt)@.allocate(
                NodeKind::Signal,
                ReactiveNodeState::Clean,
                Some(value),
            ),
            signal.inner.slot == old(rt)@.nodes.len(),
    {
        let cell = ArcRwSignal::new(rt, value);
        Signal { inner: Stored::new(cell.node) }
    }

    /// The cell behind the signal.
    pub fn cell(&self) -> (cell: ArcRwSignal)
        ensures
            cell.node == self.inner.slot,
    {
        ArcRwSignal { node: self.inner.slot }
    }

    /// A tracked read: the value, and an edge from the signal to the
    /// observer, if one is set. `None` once the signal has been disposed.
    pub fn get<T: Copy>(&self, rt: &mut Runtime<T>) -> (value: Option<T>)
        ensures
            final(rt).is_silent_since(old(rt)),
            final(rt)@ == (if old(rt)@.is_a(self.inner.slot, NodeKind::Signal) {
                old(rt)@.track(self.inner.slot)
            } else {
                old(rt)@
            }),
            value == (if old(rt)@.is_a(self.inner.slot, NodeKind::Signal) {
                old(rt)@.nodes[self.inner.slot as int].value
            } else {
                None
            }),
    {
        self.cell().try_get(rt)
    }

    /// The value, without an edge.
    pub fn get_untracked<T: Copy>(&self, rt: &Runtime<T>) -> (value: Option<T>)
        ensures
            value == (if rt@.is_a(self.inner.slot, NodeKind::Signal) {
                rt@.nodes[self.inner.slot as int].value
            } else {
                None
            }),
    {
        self.cell().try_get_untracked(rt)
    }

    /// A tracked read through `fun`.
    pub fn with<T, U, F: FnOnce(&T) -> U>(&self, rt: &mut Runtime<T>, fun: F) -> (out: Option<U>)
        requires
            forall|v: &T| call_requires(fun, (v,)),
        ensures
            final(rt).is_silent_since(old(rt)),
            final(rt)@ == (if old(rt)@.is_a(self.inner.slot, NodeKind::Signal) {
                old(rt)@.track(self.inner.slot)
            } else {
                old(rt)@
            }),
            match (if old(rt)@.is_a(self.inner.slot, NodeKind::Signal) {
                old(rt)@.nodes[self.inner.slot as int].value
            } else {
                None
            }) {
                Some(v) => out matches Some(u) && call_ensures(fun, (&v,), u),
                None => out is None,
            },
    {
        self.cell().try_with(rt, fun)
    }

    /// What `fun` makes of the value, without an edge.
    pub fn with_untracked<T, U, F: FnOnce(&T) -> U>(&self, rt: &Runtime<T>, fun: F) -> (out: Option<
        U,
    >)
        requires
            forall|v: &T| call_requires(fun, (v,)),
        ensures
            match (if rt@.is_a(self.inner.slot, NodeKind::Signal) {
                rt@.nodes[self.inner.slot as int].value
            } else {
                None
            }) {
                Some(v) => out matches Some(u) && call_ensures(fun, (&v,), u),
                None => out is None,
            },
    {
        self.cell().try_with_untracked(rt, fun)
    }

    /// Replaces the value. The signal is `Dirty` whether or not the new
    /// value equals the old one, everything downstream is marked, and the
    /// effects among it are woken. Returns whether there was a live signal
    /// to write to.
    pub fn set<T>(&self, rt: &mut Runtime<T>, value: T) -> (written: bool)
        ensures
            final(rt).keeps_channels(old(rt)),
            final(rt).wake_requests() == old(rt).wake_requests() + old(rt)@.write_list(self.inner.slot),
            final(rt)@ == old(rt)@.write(self.inner.slot, value),
            written == old(rt)@.is_a(self.inner.slot, NodeKind::Signal),
    {
        self.cell().set(rt, value)
    }

    /// Replaces the value by what `fun` makes of it, and pushes the change
    /// as [`set`](Self::set) does.
    pub fn update<T: Copy, F: FnOnce(T) -> T>(&self, rt: &mut Runtime<T>, fun: F) -> (updated: bool)
        requires
            forall|v: T| call_requires(fun, (v,)),
        ensures
            final(rt).keeps_channels(old(rt)),
            final(rt).wake_requests() == old(rt).wake_requests() + old(rt)@.write_list(self.inner.slot),
            updated == old(rt)@.is_a(self.inner.slot, NodeKind::Signal),
            !updated ==> final(rt)@ == old(rt)@,
            updated ==> old(rt)@.nodes[self.inner.slot as int].value is Some && exists|next: T|
                {
                    &&& #[trigger] call_ensures(
                        fun,
                        (old(rt)@.nodes[self.inner.slot as int].value.unwrap(),),
                        next,
                    )
                    &&& final(rt)@ == old(rt)@.write(self.inner.slot, next)
                },
    {
        self.cell().update(rt, fun)
    }

    /// The read-only and the write-only view of the signal. Both name the
    /// same cell.
    pub fn split(&self) -> (views: (ReadSignal, WriteSignal))
        ensures
            views.0.inner == self.inner,
            views.1.inner == self.inner,
    {
        (ReadSignal { inner: self.inner }, WriteSignal { inner: self.inner })
    }

    /// The read-only view of the signal.
    pub fn read_only(&self) -> (view: ReadSignal)
        ensures
            view.inner == self.inner,
    {
        ReadSignal { inner: self.inner }
    }

    /// Disposes the signal. Doing so again changes nothing.
    pub fn dispose<T>(&self, rt: &mut Runtime<T>)
        ensures
            final(rt).wake_requests() == old(rt).wake_requests(),
            forall|slot: usize| #[trigger]
                final(rt).has_channel(slot) == (old(rt).has_channel(slot) && (final(rt)@.is_live(slot) || !old(rt)@.is_live(self.inner.slot))),
            final(rt)@ == old(rt)@.dispose_node(self.inner.slot),
    {
        self.inner.dispose(rt);
    }
}

/// The write-only view of a signal.
#[derive(Clone, Copy, PartialEq, Eq, Structural, Debug)]
pub struct WriteSignal {
    pub inner: Stored,
}

impl WriteSignal {
    /// Replaces the value, as [`Signal::set`] does.
    pub fn set<T>(&self, rt: &mut Runtime<T>, value: T) -> (written: bool)
        ensures
            final(rt).keeps_channels(old(rt)),
            final(rt).wake_requests() == old(rt).wake_requests() + old(rt)@.write_list(self.inner.slot),
            final(rt)@ == old(rt)@.write(self.inner.slot, value),
            written == old(rt)@.is_a(self.inner.slot, NodeKind::Signal),
    {
        rt.write(self.inner.slot, value)
    }

    /// Disposes the signal. Doing so again changes nothing.
    pub fn dispose<T>(&self, rt: &mut Runtime<T>)
        ensures
            final(rt).wake_requests() == old(rt).wake_requests(),
            forall|slot: usize| #[trigger]
                final(rt).has_channel(slot) == (old(rt).has_channel(slot) && (final(rt)@.is_live(slot) || !old(rt)@.is_live(self.inner.slot))),
            final(rt)@ == old(rt)@.dispose_node(self.inner.slot),
    {
        self.inner.dispose(rt);
    }
}

/// A new signal, as its read-only and its write-only view.
pub fn signal<T>(rt: &mut Runtime<T>, value: T) -> (views: (ReadSignal, WriteSignal))
    requires
        old(rt)@.nodes.len() < usize::MAX,
    ensures
        final(rt).is_silent_since(old(rt)),
        final(rt)@ == old(rt)@.allocate(NodeKind::Signal, ReactiveNodeState::Clean, Some(value)),
        views.0.inner.slot == old(rt)@.nodes.len(),
        views.1.inner.slot == old(rt)@.nodes.len(),
{
    Signal::new(rt, value).split()
}

} // verus!
