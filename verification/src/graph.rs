//! The executable arena: nodes, edges, scopes, and the primitive steps on
//! them. Each step refines one transition of [`GraphModel`].

use crate::model::{CleanupSlot, GraphModel, OwnerSlot};
use crate::node::{AnySubscriber, Node, NodeKind, NodeModel, ReactiveNodeState};
use crate::observer::Observer;
use crate::seq_util::{
    contains, copy_of, flagged, lemma_push_contains, lemma_retain_all, lemma_retain_idempotent,
    other_than, remove_marked, remove_value, without,
};
use vstd::prelude::*;

verus! {

/// The arena and the ambient state that goes with it.
pub struct Graph<T> {
    pub nodes: Vec<Node<T>>,
    pub observer: Observer,
    pub owners: Vec<OwnerSlot>,
    pub current_owner: Option<usize>,
    pub cleanups: Vec<CleanupSlot>,
}

impl<T> View for Graph<T> {
    type V = GraphModel<T>;

    open spec fn view(&self) -> GraphModel<T> {
        GraphModel {
            nodes: Seq::new(self.nodes.len() as nat, |i: int| self.nodes[i]@),
            observer: self.observer.current,
            owners: self.owners@,
            current_owner: self.current_owner,
            cleanups: self.cleanups@,
        }
    }
}

impl<T> Graph<T> {
    /// The invariant of the arena, on the executable graph.
    pub open spec fn wf(&self) -> bool {
        self@.wf()
    }

    /// An arena with nothing in it.
    pub fn new() -> (graph: Self)
        ensures
            graph.wf(),
            graph@ == GraphModel::<T>::empty(),
    {
        let graph = Graph {
            nodes: Vec::new(),
            observer: Observer::new(),
            owners: Vec::new(),
            current_owner: None,
            cleanups: Vec::new(),
        };
        assert(graph@.nodes =~= Seq::empty());
        graph
    }

    /// The number of slots ever allocated.
    pub fn len(&self) -> (n: usize)
        ensures
            n == self@.nodes.len(),
    {
        self.nodes.len()
    }

    /// Whether `id` names a slot that has not been disposed.
    pub fn is_live(&self, id: usize) -> (live: bool)
        ensures
            live == self@.is_live(id),
    {
        id < self.nodes.len() && self.nodes[id].live
    }

    /// Whether `id` names a live slot of the given kind.
    pub fn is_a(&self, id: usize, kind: NodeKind) -> (yes: bool)
        ensures
            yes == self@.is_a(id, kind),
    {
        id < self.nodes.len() && self.nodes[id].live && self.nodes[id].kind == kind
    }

    /// The state of a live node.
    pub fn state_of(&self, id: usize) -> (state: Option<ReactiveNodeState>)
        ensures
            state == (if self@.is_live(id) {
                Some(self@.nodes[id as int].state)
            } else {
                None
            }),
    {
        if id < self.nodes.len() && self.nodes[id].live {
            Some(self.nodes[id].state)
        } else {
            None
        }
    }

    /// A new live slot at the end of the arena, owned by the current scope.
    pub fn allocate(&mut self, kind: NodeKind, state: ReactiveNodeState, value: Option<T>) -> (id:
        usize)
        requires
            old(self).wf(),
            old(self)@.nodes.len() < usize::MAX,
            value is Some || (kind != NodeKind::Signal && state == ReactiveNodeState::Dirty),
        ensures
            final(self).wf(),
            final(self)@ == old(self)@.allocate(kind, state, value),
            id == old(self)@.nodes.len(),
    {
        let id = self.nodes.len();
        let node = Node::new(kind, state, value, self.current_owner);
        self.nodes.push(node);
        proof {
            old(self)@.lemma_allocate_wf(kind, state, value);
            assert(self@.nodes =~= old(self)@.allocate(kind, state, value).nodes);
        }
        id
    }

    /// Records the edge from `source` to `sub` on both ends, unless it may
    /// not exist or is there already.
    pub fn add_edge(&mut self, source: usize, sub: usize)
        requires
            old(self).wf(),
        ensures
            final(self).wf(),
            final(self)@ == old(self)@.add_edge(source, sub),
    {
        if source < self.nodes.len() && sub < self.nodes.len() && source != sub
            && self.nodes[source].live && self.nodes[sub].live && self.nodes[source].kind
            != NodeKind::Effect && self.nodes[sub].kind != NodeKind::Signal && !contains(
            &self.nodes[sub].sources,
            source,
        ) {
            self.nodes[sub].sources.push(source);
            self.nodes[source].subscribers.push(sub);
            proof {
                assert(self@.nodes =~= old(self)@.add_edge(source, sub).nodes);
            }
        }
        proof {
            old(self)@.lemma_add_edge_wf(source, sub);
        }
    }

    /// A tracked read of `source`: an edge to the observer, if one is set.
    pub fn track(&mut self, source: usize)
        requires
            old(self).wf(),
        ensures
            final(self).wf(),
            final(self)@ == old(self)@.track(source),
    {
        match self.observer.get() {
            Some(AnySubscriber(sub)) => self.add_edge(source, sub),
            None => {},
        }
    }

    /// Removes the edge from `source` to `sub` on both ends.
    pub fn remove_edge(&mut self, source: usize, sub: usize)
        requires
            old(self).wf(),
        ensures
            final(self).wf(),
            final(self)@ == old(self)@.remove_edge(source, sub),
    {
        if source < self.nodes.len() && sub < self.nodes.len() {
            remove_value(&mut self.nodes[source].subscribers, sub);
            remove_value(&mut self.nodes[sub].sources, source);
            proof {
                assert(self@.nodes =~= old(self)@.remove_edge(source, sub).nodes);
            }
        }
        proof {
            old(self)@.lemma_remove_edge_wf(source, sub);
        }
    }

    /// `sub` forgets its sources, and every node forgets `sub` as a
    /// subscriber.
    pub fn clear_sources(&mut self, sub: usize)
        requires
            old(self).wf(),
        ensures
            final(self).wf(),
            final(self)@ == old(self)@.clear_sources(sub),
    {
        if sub < self.nodes.len() {
            let sources = copy_of(&self.nodes[sub].sources);
            let ghost before = self@;
            let mut k: usize = 0;
            while k < sources.len()
                invariant
                    k <= sources.len(),
                    before.wf(),
                    before == old(self)@,
                    sub < before.nodes.len(),
                    sources@ == before.nodes[sub as int].sources,
                    self@.nodes.len() == before.nodes.len(),
                    self@.observer == before.observer,
                    self@.owners == before.owners,
                    self@.current_owner == before.current_owner,
                    self@.cleanups == before.cleanups,
                    forall|i: int|
                        0 <= i < before.nodes.len() ==> #[trigger] self@.nodes[i] == (NodeModel {
                            subscribers: if sources@.take(k as int).contains(i as usize) {
                                without(before.nodes[i].subscribers, sub)
                            } else {
                                before.nodes[i].subscribers
                            },
                            ..before.nodes[i]
                        }),
                decreases sources.len() - k,
            {
                let q = sources[k];
                proof {
                    assert(before.nodes[sub as int].sources[k as int] < before.nodes.len());
                }
                let ghost mid = self@;
                remove_value(&mut self.nodes[q].subscribers, sub);
                proof {
                    let done = sources@.take(k as int);
                    let next = sources@.take(k + 1);
                    assert(next =~= done.push(q));
                    assert forall|i: int| 0 <= i < before.nodes.len() implies #[trigger] self@.nodes[i]
                        == (NodeModel {
                        subscribers: if next.contains(i as usize) {
                            without(before.nodes[i].subscribers, sub)
                        } else {
                            before.nodes[i].subscribers
                        },
                        ..before.nodes[i]
                    }) by {
                        lemma_push_contains(done, q, i as usize);
                        assert(mid.nodes[i] == (NodeModel {
                            subscribers: if done.contains(i as usize) {
                                without(before.nodes[i].subscribers, sub)
                            } else {
                                before.nodes[i].subscribers
                            },
                            ..before.nodes[i]
                        }));
                        if i == q && done.contains(q) {
                            lemma_retain_idempotent(before.nodes[i].subscribers, other_than(sub));
                        }
                    }
                }
                k += 1;
            }
            let ghost swept = self@;
            self.nodes[sub].sources.clear();
            proof {
                let goal = before.clear_sources(sub);
                assert(sources@.take(sources.len() as int) =~= sources@);
                assert forall|i: int| 0 <= i < before.nodes.len() implies self@.nodes[i]
                    == goal.nodes[i] by {
                    assert(swept.nodes[i] == (NodeModel {
                        subscribers: if sources@.contains(i as usize) {
                            without(before.nodes[i].subscribers, sub)
                        } else {
                            before.nodes[i].subscribers
                        },
                        ..before.nodes[i]
                    }));
                    assert(self@.nodes[i] == (NodeModel {
                        sources: if i == sub {
                            Seq::empty()
                        } else {
                            swept.nodes[i].sources
                        },
                        ..swept.nodes[i]
                    }));
                    if !sources@.contains(i as usize) {
                        // `sub` is no subscriber of a node it does not read
                        assert(!before.nodes[i].subscribers.contains(sub));
                        let keep = other_than(sub);
                        assert forall|m: int|
                            0 <= m < before.nodes[i].subscribers.len() implies keep(
                            #[trigger] before.nodes[i].subscribers[m],
                        ) by {
                            assert(before.nodes[i].subscribers.contains(
                                before.nodes[i].subscribers[m],
                            ));
                        }
                        lemma_retain_all(before.nodes[i].subscribers, other_than(sub));
                    }
                    assert(self@.nodes[i].subscribers == goal.nodes[i].subscribers);
                    assert(self@.nodes[i].sources =~= goal.nodes[i].sources);
                }
                assert(self@.nodes =~= goal.nodes);
                before.lemma_clear_sources_wf(sub);
            }
        }
    }

    /// `source` forgets its subscribers, and every node forgets `source`
    /// as a source.
    pub fn clear_subscribers(&mut self, source: usize)
        requires
            old(self).wf(),
        ensures
            final(self).wf(),
            final(self)@ == old(self)@.clear_subscribers(source),
    {
        if source < self.nodes.len() {
            let readers = copy_of(&self.nodes[source].subscribers);
            let ghost before = self@;
            let mut k: usize = 0;
            while k < readers.len()
                invariant
                    k <= readers.len(),
                    before.wf(),
                    before == old(self)@,
                    source < before.nodes.len(),
                    readers@ == before.nodes[source as int].subscribers,
                    self@.nodes.len() == before.nodes.len(),
                    self@.observer == before.observer,
                    self@.owners == before.owners,
                    self@.current_owner == before.current_owner,
                    self@.cleanups == before.cleanups,
                    forall|i: int|
                        0 <= i < before.nodes.len() ==> #[trigger] self@.nodes[i] == (NodeModel {
                            sources: if readers@.take(k as int).contains(i as usize) {
                                without(before.nodes[i].sources, source)
                            } else {
                                before.nodes[i].sources
                            },
                            ..before.nodes[i]
                        }),
                decreases readers.len() - k,
            {
                let q = readers[k];
                proof {
                    assert(before.nodes[source as int].subscribers[k as int] < before.nodes.len());
                }
                let ghost mid = self@;
                remove_value(&mut self.nodes[q].sources, source);
                proof {
                    let done = readers@.take(k as int);
                    let next = readers@.take(k + 1);
                    assert(next =~= done.push(q));
                    assert forall|i: int| 0 <= i < before.nodes.len() implies #[trigger] self@.nodes[i]
                        == (NodeModel {
                        sources: if next.contains(i as usize) {
                            without(before.nodes[i].sources, source)
                        } else {
                            before.nodes[i].sources
                        },
                        ..before.nodes[i]
                    }) by {
                        lemma_push_contains(done, q, i as usize);
                        assert(mid.nodes[i] == (NodeModel {
                            sources: if done.contains(i as usize) {
                                without(before.nodes[i].sources, source)
                            } else {
                                before.nodes[i].sources
                            },
                            ..before.nodes[i]
                        }));
                        if i == q && done.contains(q) {
                            lemma_retain_idempotent(before.nodes[i].sources, other_than(source));
                        }
                    }
                }
                k += 1;
            }
            let ghost swept = self@;
            self.nodes[source].subscribers.clear();
            proof {
                let goal = before.clear_subscribers(source);
                assert(readers@.take(readers.len() as int) =~= readers@);
                assert forall|i: int| 0 <= i < before.nodes.len() implies self@.nodes[i]
                    == goal.nodes[i] by {
                    assert(swept.nodes[i] == (NodeModel {
                        sources: if readers@.contains(i as usize) {
                            without(before.nodes[i].sources, source)
                        } else {
                            before.nodes[i].sources
                        },
                        ..before.nodes[i]
                    }));
                    assert(self@.nodes[i] == (NodeModel {
                        subscribers: if i == source {
                            Seq::empty()
                        } else {
                            swept.nodes[i].subscribers
                        },
                        ..swept.nodes[i]
                    }));
                    if !readers@.contains(i as usize) {
                        // a node that does not subscribe to `source` does not list it
                        assert(!before.nodes[i].sources.contains(source));
                        let keep = other_than(source);
                        assert forall|m: int|
                            0 <= m < before.nodes[i].sources.len() implies keep(
                            #[trigger] before.nodes[i].sources[m],
                        ) by {
                            assert(before.nodes[i].sources.contains(before.nodes[i].sources[m]));
                        }
                        lemma_retain_all(before.nodes[i].sources, other_than(source));
                    }
                    assert(self@.nodes[i].sources == goal.nodes[i].sources);
                    assert(self@.nodes[i].subscribers =~= goal.nodes[i].subscribers);
                }
                assert(self@.nodes =~= goal.nodes);
                before.lemma_clear_subscribers_wf(source);
            }
        }
    }

    /// Disposes one slot: its edges are cut on both ends and the slot is
    /// emptied. Returns whether there was a live slot to dispose.
    pub fn dispose_node(&mut self, id: usize) -> (was_live: bool)
        requires
            old(self).wf(),
        ensures
            final(self).wf(),
            final(self)@ == old(self)@.dispose_node(id),
            was_live == old(self)@.is_live(id),
    {
        if id < self.nodes.len() && self.nodes[id].live {
            self.clear_sources(id);
            self.clear_subscribers(id);
            let ghost cut = self@;
            self.nodes[id].live = false;
            self.nodes[id].value = None;
            self.nodes[id].state = ReactiveNodeState::Clean;
            self.nodes[id].invalidated = false;
            self.nodes[id].running = false;
            proof {
                assert(cut.nodes[id as int].sources =~= Seq::empty());
                assert(cut.nodes[id as int].subscribers =~= Seq::empty());
                assert(self@.nodes =~= old(self)@.dispose_node(id).nodes);
                old(self)@.lemma_dispose_node_wf(id);
            }
            true
        } else {
            false
        }
    }

    /// Empties every slot that `dead` flags and removes it from the edge
    /// lists of the others.
    pub fn detach_marked(&mut self, dead: &Vec<bool>)
        requires
            old(self).wf(),
        ensures
            final(self).wf(),
            final(self)@ == old(self)@.detach(flagged(dead@)),
    {
        let ghost before = self@;
        let ghost doomed = flagged(dead@);
        let mut i: usize = 0;
        while i < self.nodes.len()
            invariant
                i <= self.nodes.len(),
                before == old(self)@,
                doomed == flagged(dead@),
                self@.nodes.len() == before.nodes.len(),
                self@.observer == before.observer,
                self@.owners == before.owners,
                self@.current_owner == before.current_owner,
                self@.cleanups == before.cleanups,
                forall|j: int|
                    0 <= j < i ==> #[trigger] self@.nodes[j] == before.detach(doomed).nodes[j],
                forall|j: int|
                    i <= j < before.nodes.len() ==> #[trigger] self@.nodes[j] == before.nodes[j],
            decreases self.nodes.len() - i,
        {
            let ghost mid = self@;
            if i < dead.len() && dead[i] {
                self.nodes[i].sources.clear();
                self.nodes[i].subscribers.clear();
                self.nodes[i].live = false;
                self.nodes[i].value = None;
                self.nodes[i].state = ReactiveNodeState::Clean;
                self.nodes[i].invalidated = false;
                self.nodes[i].running = false;
            } else {
                remove_marked(&mut self.nodes[i].sources, dead);
                remove_marked(&mut self.nodes[i].subscribers, dead);
            }
            proof {
                assert forall|j: int| 0 <= j < i + 1 implies #[trigger] self@.nodes[j]
                    == before.detach(doomed).nodes[j] by {
                    if j < i {
                        assert(self@.nodes[j] == mid.nodes[j]);
                    } else {
                        assert(mid.nodes[j] == before.nodes[j]);
                        assert(self@.nodes[j].sources =~= before.detach(doomed).nodes[j].sources);
                        assert(self@.nodes[j].subscribers =~= before.detach(
                            doomed,
                        ).nodes[j].subscribers);
                    }
                }
                assert forall|j: int| i + 1 <= j < before.nodes.len() implies #[trigger] self@.nodes[j]
                    == before.nodes[j] by {
                    assert(self@.nodes[j] == mid.nodes[j]);
                }
            }
            i += 1;
        }
        proof {
            assert(self@.nodes =~= before.detach(doomed).nodes);
            before.lemma_detach_wf(doomed);
        }
    }
}

} // verus!
