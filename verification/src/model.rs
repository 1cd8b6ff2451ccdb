//! The reactive graph as a mathematical object, and its transitions.
//!
//! Everything the runtime does to its arena is stated here as a function
//! from one [`GraphModel`] to the next. The executable graph refines these
//! functions step by step.

use crate::node::{AnySubscriber, NodeKind, NodeModel, ReactiveNodeState};
use crate::seq_util::{retain, spared, without};
use vstd::prelude::*;

verus! {

/// One scope of the disposal tree.
#[derive(Clone, Copy, PartialEq, Eq, Structural, Debug)]
pub struct OwnerSlot {
    /// The scope that was current when this one was created.
    pub parent: Option<usize>,
    pub disposed: bool,
}

/// One registered cleanup callback, named by its position in the list.
#[derive(Clone, Copy, PartialEq, Eq, Structural, Debug)]
pub struct CleanupSlot {
    pub owner: usize,
    /// Cleared when the callback is handed out to be run.
    pub pending: bool,
}

/// What a pull has to do with a node.
#[derive(Clone, Copy, PartialEq, Eq, Structural, Debug)]
pub enum Pull {
    /// No live node: there is nothing to read.
    Absent,
    /// The node's function is on the call stack: a dependency cycle.
    Busy,
    /// A signal: it holds its value and has nothing to recompute.
    Source,
    /// `Clean`: the cached value stands.
    Fresh,
    /// `Dirty`, or a direct source reported a change: run the function.
    Stale,
    /// `Check` with no change reported yet: ask the sources.
    Unsure,
}

/// The whole runtime state.
#[verifier::ext_equal]
pub struct GraphModel<T> {
    pub nodes: Seq<NodeModel<T>>,
    /// The subscriber that tracked reads are registered with, if any.
    pub observer: Option<AnySubscriber>,
    pub owners: Seq<OwnerSlot>,
    /// The scope that new slots, scopes and cleanups are attached to.
    pub current_owner: Option<usize>,
    pub cleanups: Seq<CleanupSlot>,
}

/// Whether scope `j` is `root` or lies below it in the disposal tree.
pub open spec fn in_subtree(owners: Seq<OwnerSlot>, root: usize, j: usize) -> bool
    decreases j,
{
    if j >= owners.len() {
        false
    } else if j == root {
        true
    } else {
        match owners[j as int].parent {
            Some(p) => p < j && in_subtree(owners, root, p),
            None => false,
        }
    }
}

impl<T> GraphModel<T> {
    /// A runtime with no nodes, no scopes and no observer.
    pub open spec fn empty() -> Self {
        GraphModel {
            nodes: Seq::empty(),
            observer: None,
            owners: Seq::empty(),
            current_owner: None,
            cleanups: Seq::empty(),
        }
    }

    /// `id` names a slot that has not been disposed.
    pub open spec fn is_live(self, id: usize) -> bool {
        id < self.nodes.len() && self.nodes[id as int].live
    }

    /// `id` names a live slot of the given kind.
    pub open spec fn is_a(self, id: usize, kind: NodeKind) -> bool {
        self.is_live(id) && self.nodes[id as int].kind == kind
    }

    /// There is an edge from `source` to `sub` in the subscriber lists.
    pub open spec fn edge(self, source: usize, sub: usize) -> bool {
        source < self.nodes.len() && self.nodes[source as int].subscribers.contains(sub)
    }

    /// The invariant of the arena.
    ///
    /// The arena can be indexed by machine integers. Edges stay inside it,
    /// are recorded on both ends, and occur once; dead slots have none; signals have no sources and effects no
    /// subscribers; scopes are numbered after their parents.
    pub open spec fn wf(self) -> bool {
        &&& self.nodes.len() <= usize::MAX
        &&& self.owners.len() <= usize::MAX
        &&& self.cleanups.len() <= usize::MAX
        &&& forall|i: int, k: int|
            0 <= i < self.nodes.len() && 0 <= k < self.nodes[i].sources.len() ==> (
            #[trigger] self.nodes[i].sources[k]) < self.nodes.len()
        &&& forall|i: int, k: int|
            0 <= i < self.nodes.len() && 0 <= k < self.nodes[i].subscribers.len() ==> (
            #[trigger] self.nodes[i].subscribers[k]) < self.nodes.len()
        &&& forall|i: usize, j: usize|
            #![trigger self.nodes[i as int].sources.contains(j)]
            #![trigger self.nodes[j as int].subscribers.contains(i)]
            i < self.nodes.len() && j < self.nodes.len() ==> (self.nodes[i as int].sources.contains(
                j,
            ) <==> self.nodes[j as int].subscribers.contains(i))
        &&& forall|i: int|
            0 <= i < self.nodes.len() ==> (#[trigger] self.nodes[i]).sources.no_duplicates()
                && self.nodes[i].subscribers.no_duplicates()
        &&& forall|i: int|
            0 <= i < self.nodes.len() && !(#[trigger] self.nodes[i]).live ==> self.nodes[i].sources.len()
                == 0 && self.nodes[i].subscribers.len() == 0
        &&& forall|i: int| 0 <= i < self.nodes.len() ==> (#[trigger] self.nodes[i]).is_sound()
        &&& forall|i: int|
            0 <= i < self.nodes.len() && (#[trigger] self.nodes[i]).kind == NodeKind::Signal
                ==> self.nodes[i].sources.len() == 0
        &&& forall|i: int|
            0 <= i < self.nodes.len() && (#[trigger] self.nodes[i]).kind == NodeKind::Effect
                ==> self.nodes[i].subscribers.len() == 0
        &&& forall|i: int|
            0 <= i < self.nodes.len() ==> ((#[trigger] self.nodes[i]).owner matches Some(o)
                ==> o < self.owners.len())
        &&& forall|j: int|
            0 <= j < self.owners.len() ==> ((#[trigger] self.owners[j]).parent matches Some(p)
                ==> p < j)
        &&& forall|c: int|
            0 <= c < self.cleanups.len() ==> (#[trigger] self.cleanups[c]).owner
                < self.owners.len()
        &&& self.current_owner matches Some(o) ==> o < self.owners.len()
    }

    // ----- allocation ---------------------------------------------------

    /// A new live slot at the end of the arena, owned by the current scope.
    pub open spec fn allocate(self, kind: NodeKind, state: ReactiveNodeState, value: Option<T>) -> Self {
        GraphModel {
            nodes: self.nodes.push(NodeModel::fresh(kind, state, value, self.current_owner)),
            ..self
        }
    }

    // ----- edges --------------------------------------------------------

    /// Whether an edge from `source` to `sub` may exist at all.
    pub open spec fn can_subscribe(self, source: usize, sub: usize) -> bool {
        &&& self.is_live(source)
        &&& self.is_live(sub)
        &&& source != sub
        &&& self.nodes[source as int].kind != NodeKind::Effect
        &&& self.nodes[sub as int].kind != NodeKind::Signal
    }

    /// Records the edge on both ends, unless it may not exist or is there
    /// already.
    pub open spec fn add_edge(self, source: usize, sub: usize) -> Self {
        if self.can_subscribe(source, sub) && !self.nodes[sub as int].sources.contains(source) {
            let reader = self.nodes[sub as int];
            let read = self.nodes[source as int];
            GraphModel {
                nodes: self.nodes.update(
                    sub as int,
                    NodeModel { sources: reader.sources.push(source), ..reader },
                ).update(
                    source as int,
                    NodeModel { subscribers: read.subscribers.push(sub), ..read },
                ),
                ..self
            }
        } else {
            self
        }
    }

    /// A tracked read of `source`: an edge to the observer, if one is set.
    pub open spec fn track(self, source: usize) -> Self {
        match self.observer {
            Some(AnySubscriber(sub)) => self.add_edge(source, sub),
            None => self,
        }
    }

    /// Removes the edge from `source` to `sub` on both ends.
    pub open spec fn remove_edge(self, source: usize, sub: usize) -> Self {
        if source < self.nodes.len() && sub < self.nodes.len() {
            let read = self.nodes[source as int];
            let cut = self.nodes.update(
                source as int,
                NodeModel { subscribers: without(read.subscribers, sub), ..read },
            );
            let reader = cut[sub as int];
            GraphModel {
                nodes: cut.update(
                    sub as int,
                    NodeModel { sources: without(reader.sources, source), ..reader },
                ),
                ..self
            }
        } else {
            self
        }
    }

    /// `sub` forgets its sources, and every node forgets `sub` as a
    /// subscriber.
    pub open spec fn clear_sources(self, sub: usize) -> Self {
        if sub < self.nodes.len() {
            GraphModel {
                nodes: Seq::new(
                    self.nodes.len(),
                    |i: int|
                        NodeModel {
                            sources: if i == sub {
                                Seq::empty()
                            } else {
                                self.nodes[i].sources
                            },
                            subscribers: without(self.nodes[i].subscribers, sub),
                            ..self.nodes[i]
                        },
                ),
                ..self
            }
        } else {
            self
        }
    }

    /// `source` forgets its subscribers, and every node forgets `source`
    /// as a source.
    pub open spec fn clear_subscribers(self, source: usize) -> Self {
        if source < self.nodes.len() {
            GraphModel {
                nodes: Seq::new(
                    self.nodes.len(),
                    |i: int|
                        NodeModel {
                            subscribers: if i == source {
                                Seq::empty()
                            } else {
                                self.nodes[i].subscribers
                            },
                            sources: without(self.nodes[i].sources, source),
                            ..self.nodes[i]
                        },
                ),
                ..self
            }
        } else {
            self
        }
    }

    /// Empties every doomed slot and removes it from the edge lists of the
    /// others.
    pub open spec fn detach(self, doomed: spec_fn(usize) -> bool) -> Self {
        GraphModel {
            nodes: Seq::new(
                self.nodes.len(),
                |i: int|
                    if doomed(i as usize) {
                        self.nodes[i].emptied()
                    } else {
                        NodeModel {
                            sources: retain(self.nodes[i].sources, spared(doomed)),
                            subscribers: retain(self.nodes[i].subscribers, spared(doomed)),
                            ..self.nodes[i]
                        }
                    },
            ),
            ..self
        }
    }

    /// Disposal of one slot: its edges are cut on both ends and the slot is
    /// emptied. A dead slot stays as it is.
    pub open spec fn dispose_node(self, id: usize) -> Self {
        if self.is_live(id) {
            let cut = self.clear_sources(id).clear_subscribers(id);
            GraphModel { nodes: cut.nodes.update(id as int, cut.nodes[id as int].emptied()), ..cut }
        } else {
            self
        }
    }

    // ----- push phase ---------------------------------------------------

    /// `p` walks along subscriber edges, one edge at least.
    pub open spec fn is_path(self, p: Seq<usize>) -> bool {
        &&& p.len() >= 2
        &&& forall|k: int| 0 <= k < p.len() - 1 ==> #[trigger] self.hop(p, k)
    }

    /// The `k`-th step of `p` is an edge.
    pub open spec fn hop(self, p: Seq<usize>, k: int) -> bool {
        self.edge(p[k], p[k + 1])
    }

    /// `to` is a subscriber of `from`, or of one of its subscribers, and so
    /// on.
    pub open spec fn reaches(self, from: usize, to: usize) -> bool {
        exists|p: Seq<usize>| #[trigger] self.is_path(p) && p[0] == from && p.last() == to
    }

    /// The push phase from `from`: every node downstream is marked.
    pub open spec fn propagated(self, from: usize) -> Self {
        GraphModel {
            nodes: Seq::new(
                self.nodes.len(),
                |j: int|
                    if self.reaches(from, j as usize) {
                        self.nodes[j].marked(self.edge(from, j as usize))
                    } else {
                        self.nodes[j]
                    },
            ),
            ..self
        }
    }

    /// An effect that the push phase from `from` has to wake.
    pub open spec fn wakes(self, from: usize, id: usize) -> bool {
        self.reaches(from, id) && self.is_a(id, NodeKind::Effect)
    }

    /// `list` names the effects that the push phase from `from` has to
    /// wake, each once, in ascending order.
    pub open spec fn is_wake_list(self, from: usize, list: Seq<usize>) -> bool {
        &&& forall|a: int, b: int| 0 <= a < b < list.len() ==> list[a] < list[b]
        &&& forall|id: usize| list.contains(id) <==> self.wakes(from, id)
    }

    /// The effects that the push phase from `from` has to wake, each once,
    /// in ascending order.
    pub open spec fn wake_list(self, from: usize) -> Seq<usize> {
        choose|list: Seq<usize>| self.is_wake_list(from, list)
    }

    /// The effects that a write to `id` has to wake: none where `id` is no
    /// live signal.
    pub open spec fn write_list(self, id: usize) -> Seq<usize> {
        if self.is_a(id, NodeKind::Signal) {
            self.wake_list(id)
        } else {
            Seq::empty()
        }
    }

    /// The effects that the end of a run of `id` has to wake: those
    /// downstream where the value has changed, none where it has not.
    pub open spec fn finish_list(self, id: usize, changed: bool) -> Seq<usize> {
        if changed && self.is_running(id) {
            self.wake_list(id)
        } else {
            Seq::empty()
        }
    }

    // ----- signals ------------------------------------------------------

    /// A write to signal `id`: the value is replaced, the signal is `Dirty`,
    /// and the change is pushed downstream. Anything but a live signal is
    /// left alone.
    pub open spec fn write(self, id: usize, value: T) -> Self {
        if self.is_a(id, NodeKind::Signal) {
            let cell = self.nodes[id as int];
            GraphModel {
                nodes: self.nodes.update(
                    id as int,
                    NodeModel { value: Some(value), state: ReactiveNodeState::Dirty, ..cell },
                ),
                ..self
            }.propagated(id)
        } else {
            self
        }
    }

    /// Whether `id` holds a value that no run has taken charge of: the node
    /// is live, has a value, and is not on the stack.
    pub open spec fn holds_value_at_rest(self, id: usize) -> bool {
        self.is_live(id) && self.nodes[id as int].value is Some && !self.nodes[id as int].running
    }

    /// Replaces the cached value of a live node that has one, and marks
    /// nothing.
    pub open spec fn amended(self, id: usize, value: T) -> Self {
        if self.is_live(id) && self.nodes[id as int].value is Some {
            GraphModel {
                nodes: self.nodes.update(
                    id as int,
                    NodeModel { value: Some(value), ..self.nodes[id as int] },
                ),
                ..self
            }
        } else {
            self
        }
    }

    /// Sets the state of a live node.
    pub open spec fn with_state(self, id: usize, state: ReactiveNodeState) -> Self {
        if self.is_live(id) {
            GraphModel {
                nodes: self.nodes.update(id as int, NodeModel { state, ..self.nodes[id as int] }),
                ..self
            }
        } else {
            self
        }
    }

    /// A notice that `id` itself has changed: a signal or memo becomes
    /// `Dirty`, an effect is due for a re-run, and everything downstream is
    /// marked.
    pub open spec fn mark_dirty(self, id: usize) -> Self {
        if self.is_a(id, NodeKind::Effect) {
            self.mark_check(id)
        } else if self.is_live(id) {
            self.with_state(id, ReactiveNodeState::Dirty).propagated(id)
        } else {
            self
        }
    }

    /// A notice that something upstream of `id` may have changed: a memo or
    /// effect drops from `Clean` to `Check`, and everything downstream is
    /// marked. A signal has nothing upstream and is left alone.
    pub open spec fn mark_check(self, id: usize) -> Self {
        if self.is_live(id) && self.nodes[id as int].kind != NodeKind::Signal {
            GraphModel {
                nodes: self.nodes.update(id as int, self.nodes[id as int].marked(false)),
                ..self
            }.propagated(id)
        } else {
            self
        }
    }

    /// What a notice to `id` wakes: the effect itself, or the effects
    /// downstream of a signal or memo.
    pub open spec fn is_notice_list(self, id: usize, list: Seq<usize>) -> bool {
        if self.is_a(id, NodeKind::Effect) {
            list == seq![id]
        } else {
            self.is_wake_list(id, list)
        }
    }

    /// What a notice to `id` wakes: nothing where the notice does nothing,
    /// the effect itself, or the effects downstream of a signal or memo.
    /// `check` tells a notice of a possible change from one of a change.
    pub open spec fn notice_list(self, id: usize, check: bool) -> Seq<usize> {
        if !self.is_live(id) || (check && self.nodes[id as int].kind == NodeKind::Signal) {
            Seq::empty()
        } else if self.nodes[id as int].kind == NodeKind::Effect {
            seq![id]
        } else {
            self.wake_list(id)
        }
    }

    /// Whether `id` is still waiting to hear of a change from its sources.
    pub open spec fn is_pending(self, id: usize) -> bool {
        self.is_live(id) && !self.nodes[id as int].invalidated
    }

    /// The start of a round of questions to the sources of `id`: the node
    /// is on the stack, so that a source that comes back to it finds a
    /// cycle.
    pub open spec fn begin_poll(self, id: usize) -> Self {
        if self.can_run(id) {
            GraphModel {
                nodes: self.nodes.update(
                    id as int,
                    NodeModel { running: true, ..self.nodes[id as int] },
                ),
                ..self
            }
        } else {
            self
        }
    }

    /// The end of a round of questions, or of anything else that had `id`
    /// on the stack: it is off the stack again.
    pub open spec fn end_poll(self, id: usize) -> Self {
        if self.is_running(id) {
            GraphModel {
                nodes: self.nodes.update(
                    id as int,
                    NodeModel { running: false, ..self.nodes[id as int] },
                ),
                ..self
            }
        } else {
            self
        }
    }

    // ----- pull phase ---------------------------------------------------

    /// What a pull has to do with `id`.
    pub open spec fn plan(self, id: usize) -> Pull {
        if !self.is_live(id) {
            Pull::Absent
        } else {
            let node = self.nodes[id as int];
            if node.kind == NodeKind::Signal {
                Pull::Source
            } else if node.running {
                Pull::Busy
            } else if node.state == ReactiveNodeState::Clean {
                Pull::Fresh
            } else if node.state == ReactiveNodeState::Dirty || node.invalidated {
                Pull::Stale
            } else {
                Pull::Unsure
            }
        }
    }

    /// Whether the function of `id` may be started now.
    pub open spec fn can_run(self, id: usize) -> bool {
        self.is_live(id) && self.nodes[id as int].kind != NodeKind::Signal
            && !self.nodes[id as int].running
    }

    /// The start of a run: the old edges are dropped, the node is on the
    /// stack, and its run count goes up by one.
    pub open spec fn begin_run(self, id: usize) -> Self {
        if self.can_run(id) {
            let cleared = self.clear_sources(id);
            let node = cleared.nodes[id as int];
            GraphModel {
                nodes: cleared.nodes.update(
                    id as int,
                    NodeModel { running: true, invalidated: false, runs: node.runs + 1, ..node },
                ),
                ..cleared
            }
        } else {
            self
        }
    }

    /// Whether a run of `id` is waiting to be finished.
    pub open spec fn is_running(self, id: usize) -> bool {
        self.is_live(id) && self.nodes[id as int].running
    }

    /// The end of a run: the value is stored and the node is `Clean`; where
    /// the value differs from the one before, the change is pushed
    /// downstream.
    pub open spec fn finish_run(self, id: usize, value: T, changed: bool) -> Self {
        if self.is_running(id) {
            let node = self.nodes[id as int];
            let stored = GraphModel {
                nodes: self.nodes.update(
                    id as int,
                    NodeModel {
                        value: Some(value),
                        state: ReactiveNodeState::Clean,
                        running: false,
                        invalidated: false,
                        ..node
                    },
                ),
                ..self
            };
            if changed {
                stored.propagated(id)
            } else {
                stored
            }
        } else {
            self
        }
    }

    /// The end of a pull that found no changed source: `Check` becomes
    /// `Clean`.
    pub open spec fn settle(self, id: usize) -> Self {
        if self.plan(id) == Pull::Unsure {
            self.with_state(id, ReactiveNodeState::Clean)
        } else {
            self
        }
    }

    /// A pull of a signal: a `Dirty` signal has been seen and is `Clean`
    /// again.
    pub open spec fn poll_signal(self, id: usize) -> Self {
        if self.is_a(id, NodeKind::Signal) {
            self.with_state(id, ReactiveNodeState::Clean)
        } else {
            self
        }
    }

    /// A pull of each of `sources` in turn, where none of them has anything
    /// to recompute: the signals among them have been seen.
    pub open spec fn poll_all(self, sources: Seq<usize>) -> Self
        decreases sources.len(),
    {
        if sources.len() == 0 {
            self
        } else {
            self.poll_all(sources.drop_last()).poll_signal(sources.last())
        }
    }

    /// Whether `id` is a signal that has been written since it was last
    /// pulled.
    pub open spec fn is_written(self, id: usize) -> bool {
        self.is_a(id, NodeKind::Signal) && self.nodes[id as int].state == ReactiveNodeState::Dirty
    }

    /// Whether a pull of `id` answers "unchanged" without running
    /// anything: `id` is a signal that has not been written, or a clean
    /// memo.
    pub open spec fn is_resolved(self, id: usize) -> bool {
        (self.plan(id) == Pull::Source && !self.is_written(id)) || (self.plan(id) == Pull::Fresh
            && !self.is_a(id, NodeKind::Effect))
    }

    /// What a source that answers "changed" does to the node that asked
    /// it: the node has been told of a change, and is not `Clean`.
    pub open spec fn told(self, id: usize) -> Self {
        if self.is_live(id) && self.nodes[id as int].kind != NodeKind::Signal {
            GraphModel {
                nodes: self.nodes.update(id as int, self.nodes[id as int].marked(true)),
                ..self
            }
        } else {
            self
        }
    }

    /// Whether every recorded source of `id` is resolved, and none of them
    /// is `id` itself.
    pub open spec fn sources_resolved(self, id: usize) -> bool {
        id < self.nodes.len() && forall|k: int|
            0 <= k < self.nodes[id as int].sources.len() ==> {
                &&& self.is_resolved(#[trigger] self.nodes[id as int].sources[k])
                &&& self.nodes[id as int].sources[k] != id
            }
    }

    /// A round of questions to the sources of `id`, all of which are
    /// resolved.
    pub open spec fn asked(self, id: usize) -> Self {
        self.begin_poll(id).poll_all(self.nodes[id as int].sources).end_poll(id)
    }

    // ----- ownership ----------------------------------------------------

    /// A new scope below the current one.
    pub open spec fn new_owner(self) -> Self {
        GraphModel {
            owners: self.owners.push(OwnerSlot { parent: self.current_owner, disposed: false }),
            ..self
        }
    }

    /// Makes `owner` the current scope.
    pub open spec fn with_current_owner(self, owner: Option<usize>) -> Self {
        GraphModel { current_owner: owner, ..self }
    }

    /// The graph with scope `scope` entered, where there is such a scope.
    pub open spec fn entered(self, scope: usize) -> Self {
        if scope < self.owners.len() {
            self.with_current_owner(Some(scope))
        } else {
            self
        }
    }

    /// The graph with the scope that was current before put back, where
    /// there still is such a scope, and with no current scope otherwise.
    pub open spec fn left(self, previous: Option<usize>) -> Self {
        self.with_current_owner(
            if previous matches Some(o) && o >= self.owners.len() {
                None
            } else {
                previous
            },
        )
    }

    /// Sets the observer.
    pub open spec fn with_observer(self, observer: Option<AnySubscriber>) -> Self {
        GraphModel { observer, ..self }
    }

    /// Registers a cleanup with the current scope, if there is one.
    pub open spec fn on_cleanup(self) -> Self {
        match self.current_owner {
            Some(owner) => GraphModel {
                cleanups: self.cleanups.push(CleanupSlot { owner, pending: true }),
                ..self
            },
            None => self,
        }
    }

    /// Slot `id` belongs to `root` or to a scope below it.
    pub open spec fn owned_below(self, root: usize) -> spec_fn(usize) -> bool {
        |id: usize|
            id < self.nodes.len() && (self.nodes[id as int].owner matches Some(o) && in_subtree(
                self.owners,
                root,
                o,
            ))
    }

    /// Cleanup `token` is still to be run and was registered with `root` or
    /// below it.
    pub open spec fn due(self, root: usize, token: usize) -> bool {
        token < self.cleanups.len() && self.cleanups[token as int].pending && in_subtree(
            self.owners,
            root,
            self.cleanups[token as int].owner,
        )
    }

    /// Disposal of `root` and everything below it: the scopes are marked,
    /// their slots emptied, their cleanups no longer pending.
    pub open spec fn dispose_owner(self, root: usize) -> Self {
        let detached = self.detach(self.owned_below(root));
        GraphModel {
            owners: Seq::new(
                self.owners.len(),
                |j: int|
                    if in_subtree(self.owners, root, j as usize) {
                        OwnerSlot { disposed: true, ..self.owners[j] }
                    } else {
                        self.owners[j]
                    },
            ),
            cleanups: Seq::new(
                self.cleanups.len(),
                |c: int|
                    if in_subtree(self.owners, root, self.cleanups[c].owner) {
                        CleanupSlot { pending: false, ..self.cleanups[c] }
                    } else {
                        self.cleanups[c]
                    },
            ),
            ..detached
        }
    }
}

} // verus!
