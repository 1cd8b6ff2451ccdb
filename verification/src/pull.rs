//! Writes, and the steps of the pull phase.

use crate::graph::Graph;
use crate::model::{GraphModel, Pull};
use crate::node::{differs, NodeKind, NodeModel, ReactiveNodeState};
use crate::seq_util::copy_of;
use vstd::prelude::*;
use vstd::std_specs::cmp::PartialEqSpec;

verus! {

impl<T> GraphModel<T> {
    /// Whether two graphs agree on which nodes are live effects and on the
    /// subscriber lists.
    pub open spec fn same_wiring(self, other: GraphModel<T>) -> bool {
        &&& other.nodes.len() == self.nodes.len()
        &&& forall|i: int|
            0 <= i < self.nodes.len() ==> {
                &&& (#[trigger] other.nodes[i]).subscribers == self.nodes[i].subscribers
                &&& other.nodes[i].live == self.nodes[i].live
                &&& other.nodes[i].kind == self.nodes[i].kind
            }
    }

    /// Graphs with the same wiring wake the same effects.
    pub proof fn lemma_same_wiring_wakes(self, other: GraphModel<T>, from: usize, list: Seq<usize>)
        requires
            self.same_wiring(other),
            other.is_wake_list(from, list),
        ensures
            self.is_wake_list(from, list),
    {
        assert forall|id: usize| list.contains(id) <==> self.wakes(from, id) by {
            self.lemma_same_edges_reaches(other, from, id);
            assert(list.contains(id) <==> other.wakes(from, id));
        }
    }
}

impl<T> Graph<T> {
    /// A write to signal `id`: the value is replaced, the signal is `Dirty`,
    /// and the change is pushed downstream. Returns the effects to wake, or
    /// `None` where `id` names no live signal and nothing was done.
    pub fn write(&mut self, id: usize, value: T) -> (woken: Option<Vec<usize>>)
        requires
            old(self).wf(),
        ensures
            final(self).wf(),
            final(self)@ == old(self)@.write(id, value),
            woken is Some <==> old(self)@.is_a(id, NodeKind::Signal),
            woken matches Some(list) ==> old(self)@.is_wake_list(id, list@) && list@
                == old(self)@.write_list(id),
    {
        if id < self.nodes.len() && self.nodes[id].live && self.nodes[id].kind == NodeKind::Signal {
            self.nodes[id].value = Some(value);
            self.nodes[id].state = ReactiveNodeState::Dirty;
            let ghost stored = self@;
            proof {
                let cell = old(self)@.nodes[id as int];
                assert(stored.nodes =~= old(self)@.nodes.update(
                    id as int,
                    NodeModel { value: Some(value), state: ReactiveNodeState::Dirty, ..cell },
                ));
                crate::wellformed::lemma_same_shape_wf(old(self)@, stored);
            }
            let list = self.propagate(id);
            proof {
                old(self)@.lemma_same_wiring_wakes(stored, id, list@);
                old(self)@.lemma_wake_list(id, list@);
            }
            Some(list)
        } else {
            None
        }
    }

    /// Tells `id` that it has changed itself: a signal or memo becomes
    /// `Dirty`, and everything downstream is marked. Returns the effects to
    /// wake; for an effect, that is the effect itself.
    pub fn mark_dirty(&mut self, id: usize) -> (woken: Vec<usize>)
        requires
            old(self).wf(),
        ensures
            final(self).wf(),
            final(self)@ == old(self)@.mark_dirty(id),
            old(self)@.is_live(id) ==> old(self)@.is_notice_list(id, woken@),
            !old(self)@.is_live(id) ==> woken@.len() == 0,
            woken@ == old(self)@.notice_list(id, false),
    {
        if id < self.nodes.len() && self.nodes[id].live {
            if self.nodes[id].kind == NodeKind::Effect {
                self.mark_check(id)
            } else {
                self.nodes[id].state = ReactiveNodeState::Dirty;
                let ghost stored = self@;
                proof {
                    assert(stored.nodes =~= old(self)@.with_state(
                        id,
                        ReactiveNodeState::Dirty,
                    ).nodes);
                    crate::wellformed::lemma_same_shape_wf(old(self)@, stored);
                }
                let woken = self.propagate(id);
                proof {
                    old(self)@.lemma_same_wiring_wakes(stored, id, woken@);
                    old(self)@.lemma_wake_list(id, woken@);
                }
                woken
            }
        } else {
            Vec::new()
        }
    }

    /// Tells `id` that something upstream may have changed: a memo or
    /// effect drops from `Clean` to `Check`, and everything downstream is
    /// marked. Returns the effects to wake; for an effect, that is the
    /// effect itself.
    pub fn mark_check(&mut self, id: usize) -> (woken: Vec<usize>)
        requires
            old(self).wf(),
        ensures
            final(self).wf(),
            final(self)@ == old(self)@.mark_check(id),
            old(self)@.is_live(id) && old(self)@.nodes[id as int].kind != NodeKind::Signal
                ==> old(self)@.is_notice_list(id, woken@),
            !(old(self)@.is_live(id) && old(self)@.nodes[id as int].kind != NodeKind::Signal)
                ==> woken@.len() == 0,
            woken@ == old(self)@.notice_list(id, true),
    {
        if id < self.nodes.len() && self.nodes[id].live && self.nodes[id].kind != NodeKind::Signal {
            if self.nodes[id].state == ReactiveNodeState::Clean {
                self.nodes[id].state = ReactiveNodeState::Check;
            }
            let ghost stored = self@;
            proof {
                assert(stored.nodes =~= old(self)@.nodes.update(
                    id as int,
                    old(self)@.nodes[id as int].marked(false),
                ));
                crate::wellformed::lemma_same_shape_wf(old(self)@, stored);
            }
            let is_effect = self.nodes[id].kind == NodeKind::Effect;
            let woken = self.propagate(id);
            if is_effect {
                proof {
                    assert(stored.nodes[id as int].kind == NodeKind::Effect);
                    // an effect has no subscribers, so nothing is downstream of it
                    assert(woken@.len() == 0) by {
                        if woken@.len() > 0 {
                            let first = woken@[0];
                            assert(woken@.contains(first));
                            assert(stored.reaches(id, first));
                            let p = choose|p: Seq<usize>|
                                #[trigger] stored.is_path(p) && p[0] == id && p.last() == first;
                            assert(stored.hop(p, 0));
                            let subs = stored.nodes[id as int].subscribers;
                            assert(subs.contains(p[1]));
                            assert(subs.len() == 0);
                        }
                    }
                }
                let mut own: Vec<usize> = Vec::new();
                own.push(id);
                proof {
                    assert(own@ =~= seq![id]);
                }
                own
            } else {
                proof {
                    old(self)@.lemma_same_wiring_wakes(stored, id, woken@);
                    old(self)@.lemma_wake_list(id, woken@);
                }
                woken
            }
        } else {
            Vec::new()
        }
    }

    /// Whether `id` is still waiting to hear of a change from its sources.
    pub fn is_pending(&self, id: usize) -> (pending: bool)
        ensures
            pending == self@.is_pending(id),
    {
        id < self.nodes.len() && self.nodes[id].live && !self.nodes[id].invalidated
    }

    /// Starts a round of questions to the sources of `id`: the node is on
    /// the stack until [`end_poll`](Self::end_poll). Returns whether the
    /// round may start; where it may not, nothing is done.
    pub fn begin_poll(&mut self, id: usize) -> (started: bool)
        requires
            old(self).wf(),
        ensures
            final(self).wf(),
            final(self)@ == old(self)@.begin_poll(id),
            started == old(self)@.can_run(id),
    {
        if id < self.nodes.len() && self.nodes[id].live && self.nodes[id].kind != NodeKind::Signal
            && !self.nodes[id].running {
            self.nodes[id].running = true;
            proof {
                assert(self@.nodes =~= old(self)@.begin_poll(id).nodes);
                old(self)@.lemma_poll_wf(id);
            }
            true
        } else {
            false
        }
    }

    /// Tells `id` that one of its sources has answered "changed": the node
    /// is no longer waiting to hear of a change, and is not `Clean`.
    pub fn tell(&mut self, id: usize)
        requires
            old(self).wf(),
        ensures
            final(self).wf(),
            final(self)@ == old(self)@.told(id),
    {
        if id < self.nodes.len() && self.nodes[id].live && self.nodes[id].kind != NodeKind::Signal {
            if self.nodes[id].state == ReactiveNodeState::Clean {
                self.nodes[id].state = ReactiveNodeState::Check;
            }
            self.nodes[id].invalidated = true;
            proof {
                assert(self@.nodes =~= old(self)@.told(id).nodes);
                old(self)@.lemma_poll_wf(id);
            }
        }
    }

    /// Whether the function of `id`, or a round of questions to its
    /// sources, is under way.
    pub fn is_running(&self, id: usize) -> (running: bool)
        ensures
            running == self@.is_running(id),
    {
        id < self.nodes.len() && self.nodes[id].live && self.nodes[id].running
    }

    /// Takes `id` off the stack.
    pub fn end_poll(&mut self, id: usize)
        requires
            old(self).wf(),
        ensures
            final(self).wf(),
            final(self)@ == old(self)@.end_poll(id),
    {
        if id < self.nodes.len() && self.nodes[id].live && self.nodes[id].running {
            self.nodes[id].running = false;
            proof {
                assert(self@.nodes =~= old(self)@.end_poll(id).nodes);
                old(self)@.lemma_poll_wf(id);
            }
        }
    }

    /// What a pull has to do with `id`.
    pub fn plan(&self, id: usize) -> (pull: Pull)
        ensures
            pull == self@.plan(id),
    {
        if id >= self.nodes.len() || !self.nodes[id].live {
            Pull::Absent
        } else if self.nodes[id].kind == NodeKind::Signal {
            Pull::Source
        } else if self.nodes[id].running {
            Pull::Busy
        } else if self.nodes[id].state == ReactiveNodeState::Clean {
            Pull::Fresh
        } else if self.nodes[id].state == ReactiveNodeState::Dirty || self.nodes[id].invalidated {
            Pull::Stale
        } else {
            Pull::Unsure
        }
    }

    /// The sources that `id` recorded during its last run, in the order it
    /// first read them. Empty where `id` names no slot.
    pub fn sources_of(&self, id: usize) -> (sources: Vec<usize>)
        ensures
            sources@ == (if id < self@.nodes.len() {
                self@.nodes[id as int].sources
            } else {
                Seq::empty()
            }),
    {
        if id < self.nodes.len() {
            copy_of(&self.nodes[id].sources)
        } else {
            Vec::new()
        }
    }

    /// Applies `fun` to the cached value of a live node, if it has one.
    pub fn with_value<U, F: FnOnce(&T) -> U>(&self, id: usize, fun: F) -> (out: Option<U>)
        requires
            forall|v: &T| call_requires(fun, (v,)),
        ensures
            match (if self@.is_live(id) {
                self@.nodes[id as int].value
            } else {
                None
            }) {
                Some(v) => out matches Some(u) && call_ensures(fun, (&v,), u),
                None => out is None,
            },
    {
        if id < self.nodes.len() && self.nodes[id].live {
            match &self.nodes[id].value {
                Some(v) => Some(fun(v)),
                None => None,
            }
        } else {
            None
        }
    }

    /// The cached value of a live node, if it has one.
    pub fn value_of(&self, id: usize) -> (value: Option<T>) where T: Copy
        ensures
            value == (if self@.is_live(id) {
                self@.nodes[id as int].value
            } else {
                None
            }),
    {
        if id < self.nodes.len() && self.nodes[id].live {
            self.nodes[id].value
        } else {
            None
        }
    }

    /// Replaces the cached value of a live node that has one, and marks
    /// nothing. Returns whether there was a value to replace.
    pub fn amend(&mut self, id: usize, value: T) -> (amended: bool)
        requires
            old(self).wf(),
        ensures
            final(self).wf(),
            final(self)@ == old(self)@.amended(id, value),
            amended == (old(self)@.is_live(id) && old(self)@.nodes[id as int].value is Some),
    {
        if id < self.nodes.len() && self.nodes[id].live && self.nodes[id].value.is_some() {
            self.nodes[id].value = Some(value);
            proof {
                assert(self@.nodes =~= old(self)@.amended(id, value).nodes);
                crate::wellformed::lemma_same_shape_wf(old(self)@, self@);
            }
            true
        } else {
            false
        }
    }

    /// Starts a run of `id`: its old edges are dropped, it is on the stack,
    /// and its run count goes up by one. Returns whether the run may start;
    /// where it may not, nothing is done.
    pub fn begin_run(&mut self, id: usize) -> (started: bool)
        requires
            old(self).wf(),
        ensures
            final(self).wf(),
            final(self)@ == old(self)@.begin_run(id),
            started == old(self)@.can_run(id),
    {
        if id < self.nodes.len() && self.nodes[id].live && self.nodes[id].kind != NodeKind::Signal
            && !self.nodes[id].running {
            self.clear_sources(id);
            let ghost cleared = self@;
            self.nodes[id].running = true;
            self.nodes[id].invalidated = false;
            let ghost count = self.nodes[id as int].runs@ + 1;
            self.nodes[id].runs = Ghost(count);
            proof {
                let node = cleared.nodes[id as int];
                assert(self@.nodes[id as int] == (NodeModel {
                    running: true,
                    invalidated: false,
                    runs: node.runs + 1,
                    ..node
                }));
                assert forall|i: int| 0 <= i < cleared.nodes.len() && i != id implies self@.nodes[i]
                    == cleared.nodes[i] by {}
                assert(self@.nodes =~= old(self)@.begin_run(id).nodes);
                old(self)@.lemma_begin_run_wf(id);
            }
            true
        } else {
            false
        }
    }

    /// Finishes a run of `id` with the value it produced. The value is
    /// stored and the node is `Clean`; where the value differs from the one
    /// cached before, the change is pushed downstream.
    ///
    /// Returns whether the value changed and the effects to wake, or `None`
    /// where no run of `id` was under way and nothing was done.
    pub fn finish_run(&mut self, id: usize, value: T) -> (outcome: Option<(bool, Vec<usize>)>) where
        T: PartialEq,

        requires
            old(self).wf(),
        ensures
            final(self).wf(),
            outcome is Some <==> old(self)@.is_running(id),
            outcome is None ==> final(self)@ == old(self)@,
            outcome matches Some((changed, woken)) ==> {
                &&& final(self)@ == old(self)@.finish_run(id, value, changed)
                &&& T::obeys_eq_spec() ==> changed == differs(
                    old(self)@.nodes[id as int].value,
                    value,
                )
                &&& if changed {
                    old(self)@.is_wake_list(id, woken@)
                } else {
                    woken@.len() == 0
                }
                &&& woken@ == old(self)@.finish_list(id, changed)
            },
    {
        if id < self.nodes.len() && self.nodes[id].live && self.nodes[id].running {
            let changed = match &self.nodes[id].value {
                Some(previous) => !(*previous == value),
                None => true,
            };
            self.nodes[id].value = Some(value);
            self.nodes[id].state = ReactiveNodeState::Clean;
            self.nodes[id].running = false;
            self.nodes[id].invalidated = false;
            let ghost stored = self@;
            proof {
                let node = old(self)@.nodes[id as int];
                assert(stored.nodes =~= old(self)@.nodes.update(
                    id as int,
                    NodeModel {
                        value: Some(value),
                        state: ReactiveNodeState::Clean,
                        running: false,
                        invalidated: false,
                        ..node
                    },
                ));
                crate::wellformed::lemma_same_shape_wf(old(self)@, stored);
            }
            if changed {
                let woken = self.propagate(id);
                proof {
                    old(self)@.lemma_same_wiring_wakes(stored, id, woken@);
                    old(self)@.lemma_wake_list(id, woken@);
                }
                Some((true, woken))
            } else {
                Some((false, Vec::new()))
            }
        } else {
            None
        }
    }

    /// Ends a pull that found no changed source: `Check` becomes `Clean`.
    /// Returns whether the node was settled.
    pub fn settle(&mut self, id: usize) -> (settled: bool)
        requires
            old(self).wf(),
        ensures
            final(self).wf(),
            final(self)@ == old(self)@.settle(id),
            settled == (old(self)@.plan(id) == Pull::Unsure),
    {
        match self.plan(id) {
            Pull::Unsure => {
                self.nodes[id].state = ReactiveNodeState::Clean;
                proof {
                    assert(self@.nodes =~= old(self)@.settle(id).nodes);
                    old(self)@.lemma_settle_wf(id);
                }
                true
            },
            _ => false,
        }
    }

    /// A pull of a signal: a `Dirty` signal has been seen and is `Clean`
    /// again. Returns whether the signal had been written since it was last
    /// pulled.
    pub fn poll_signal(&mut self, id: usize) -> (written: bool)
        requires
            old(self).wf(),
        ensures
            final(self).wf(),
            final(self)@ == old(self)@.poll_signal(id),
            written == (old(self)@.is_a(id, NodeKind::Signal) && old(self)@.nodes[id as int].state
                == ReactiveNodeState::Dirty),
    {
        if id < self.nodes.len() && self.nodes[id].live && self.nodes[id].kind == NodeKind::Signal {
            let written = self.nodes[id].state == ReactiveNodeState::Dirty;
            self.nodes[id].state = ReactiveNodeState::Clean;
            proof {
                assert(self@.nodes =~= old(self)@.poll_signal(id).nodes);
                old(self)@.lemma_settle_wf(id);
            }
            written
        } else {
            false
        }
    }
}

} // verus!
