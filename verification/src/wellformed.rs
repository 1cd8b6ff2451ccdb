//! Every transition of the model keeps the arena well formed.

use crate::model::GraphModel;
use crate::node::{AnySubscriber, NodeKind, ReactiveNodeState};
use crate::seq_util::{
    lemma_push_contains, lemma_push_no_duplicates, lemma_retain_contains,
    lemma_retain_no_duplicates, other_than, spared, without,
};
use vstd::prelude::*;

verus! {

/// A step that leaves edges, kinds, liveness and ownership alone keeps the
/// arena well formed.
pub proof fn lemma_same_shape_wf<T>(g: GraphModel<T>, h: GraphModel<T>)
    requires
        g.wf(),
        h.nodes.len() == g.nodes.len(),
        h.owners == g.owners,
        h.cleanups == g.cleanups,
        h.current_owner == g.current_owner,
        forall|i: int|
            0 <= i < g.nodes.len() ==> {
                &&& (#[trigger] h.nodes[i]).sources == g.nodes[i].sources
                &&& h.nodes[i].subscribers == g.nodes[i].subscribers
                &&& h.nodes[i].kind == g.nodes[i].kind
                &&& h.nodes[i].live == g.nodes[i].live
                &&& h.nodes[i].owner == g.nodes[i].owner
                &&& h.nodes[i].is_sound()
            },
    ensures
        h.wf(),
{
    assert forall|i: usize, j: usize|
        i < h.nodes.len() && j < h.nodes.len() implies (h.nodes[i as int].sources.contains(j)
        <==> h.nodes[j as int].subscribers.contains(i)) by {
        assert(h.nodes[i as int].sources == g.nodes[i as int].sources);
        assert(h.nodes[j as int].subscribers == g.nodes[j as int].subscribers);
    }
    assert forall|i: int, k: int|
        0 <= i < h.nodes.len() && 0 <= k < h.nodes[i].sources.len() implies (
    #[trigger] h.nodes[i].sources[k]) < h.nodes.len() by {
        assert(h.nodes[i].sources == g.nodes[i].sources);
        assert(g.nodes[i].sources[k] < g.nodes.len());
    }
    assert forall|i: int, k: int|
        0 <= i < h.nodes.len() && 0 <= k < h.nodes[i].subscribers.len() implies (
    #[trigger] h.nodes[i].subscribers[k]) < h.nodes.len() by {
        assert(h.nodes[i].subscribers == g.nodes[i].subscribers);
        assert(g.nodes[i].subscribers[k] < g.nodes.len());
    }
}

/// A list that contains nothing is empty.
proof fn lemma_nothing_contained(s: Seq<usize>)
    requires
        forall|x: usize| !s.contains(x),
    ensures
        s.len() == 0,
{
    if s.len() > 0 {
        assert(s.contains(s[0]));
    }
}

/// A step that only removes edges, the same ones on both ends, keeps the
/// arena well formed.
pub proof fn lemma_fewer_edges_wf<T>(
    g: GraphModel<T>,
    h: GraphModel<T>,
    keep: spec_fn(usize, usize) -> bool,
)
    requires
        g.wf(),
        h.nodes.len() == g.nodes.len(),
        h.owners == g.owners,
        h.cleanups == g.cleanups,
        h.current_owner == g.current_owner,
        forall|i: int|
            0 <= i < g.nodes.len() ==> {
                &&& (#[trigger] h.nodes[i]).kind == g.nodes[i].kind
                &&& h.nodes[i].owner == g.nodes[i].owner
                &&& h.nodes[i].sources.no_duplicates()
                &&& h.nodes[i].subscribers.no_duplicates()
                &&& h.nodes[i].is_sound()
                &&& (!h.nodes[i].live ==> h.nodes[i].sources.len() == 0
                    && h.nodes[i].subscribers.len() == 0)
            },
        forall|i: int, j: usize|
            0 <= i < g.nodes.len() ==> (#[trigger] h.nodes[i].sources.contains(j) <==> (
            g.nodes[i].sources.contains(j) && keep(j, i as usize))),
        forall|j: int, i: usize|
            0 <= j < g.nodes.len() ==> (#[trigger] h.nodes[j].subscribers.contains(i) <==> (
            g.nodes[j].subscribers.contains(i) && keep(j as usize, i))),
    ensures
        h.wf(),
{
    assert forall|i: int, k: int|
        0 <= i < h.nodes.len() && 0 <= k < h.nodes[i].sources.len() implies (
    #[trigger] h.nodes[i].sources[k]) < h.nodes.len() by {
        let x = h.nodes[i].sources[k];
        assert(h.nodes[i].sources.contains(x));
        assert(g.nodes[i].sources.contains(x));
        let k0 = choose|k0: int| 0 <= k0 < g.nodes[i].sources.len() && g.nodes[i].sources[k0] == x;
        assert(g.nodes[i].sources[k0] < g.nodes.len());
    }
    assert forall|i: int, k: int|
        0 <= i < h.nodes.len() && 0 <= k < h.nodes[i].subscribers.len() implies (
    #[trigger] h.nodes[i].subscribers[k]) < h.nodes.len() by {
        let x = h.nodes[i].subscribers[k];
        assert(h.nodes[i].subscribers.contains(x));
        assert(g.nodes[i].subscribers.contains(x));
        let k0 = choose|k0: int|
            0 <= k0 < g.nodes[i].subscribers.len() && g.nodes[i].subscribers[k0] == x;
        assert(g.nodes[i].subscribers[k0] < g.nodes.len());
    }
    assert forall|i: usize, j: usize|
        i < h.nodes.len() && j < h.nodes.len() implies (h.nodes[i as int].sources.contains(j)
        <==> h.nodes[j as int].subscribers.contains(i)) by {
        assert(g.nodes[i as int].sources.contains(j) <==> g.nodes[j as int].subscribers.contains(
            i,
        ));
    }
    assert forall|i: int|
        0 <= i < h.nodes.len() && (#[trigger] h.nodes[i]).kind
            == NodeKind::Signal implies h.nodes[i].sources.len() == 0 by {
        assert(g.nodes[i].sources.len() == 0);
        assert forall|x: usize| !h.nodes[i].sources.contains(x) by {
            if g.nodes[i].sources.contains(x) {
                let k0 = choose|k0: int|
                    0 <= k0 < g.nodes[i].sources.len() && g.nodes[i].sources[k0] == x;
            }
        }
        lemma_nothing_contained(h.nodes[i].sources);
    }
    assert forall|i: int|
        0 <= i < h.nodes.len() && (#[trigger] h.nodes[i]).kind
            == NodeKind::Effect implies h.nodes[i].subscribers.len() == 0 by {
        assert(g.nodes[i].subscribers.len() == 0);
        assert forall|x: usize| !h.nodes[i].subscribers.contains(x) by {
            if g.nodes[i].subscribers.contains(x) {
                let k0 = choose|k0: int|
                    0 <= k0 < g.nodes[i].subscribers.len() && g.nodes[i].subscribers[k0] == x;
            }
        }
        lemma_nothing_contained(h.nodes[i].subscribers);
    }
}

impl<T> GraphModel<T> {
    /// Allocation keeps the arena well formed.
    pub proof fn lemma_allocate_wf(self, kind: NodeKind, state: ReactiveNodeState, value: Option<T>)
        requires
            self.wf(),
            self.nodes.len() < usize::MAX,
            value is Some || (kind != NodeKind::Signal && state == ReactiveNodeState::Dirty),
        ensures
            self.allocate(kind, state, value).wf(),
    {
        let h = self.allocate(kind, state, value);
        let n = self.nodes.len() as int;
        assert forall|i: usize, j: usize|
            i < h.nodes.len() && j < h.nodes.len() implies (h.nodes[i as int].sources.contains(j)
            <==> h.nodes[j as int].subscribers.contains(i)) by {
            if i < n && j < n {
                assert(h.nodes[i as int] == self.nodes[i as int]);
                assert(h.nodes[j as int] == self.nodes[j as int]);
            } else if i < n {
                assert(h.nodes[i as int] == self.nodes[i as int]);
                if self.nodes[i as int].sources.contains(j) {
                    let k = choose|k: int|
                        0 <= k < self.nodes[i as int].sources.len() && self.nodes[i as int].sources[k]
                            == j;
                    assert(self.nodes[i as int].sources[k] < n);
                }
            } else if j < n {
                assert(h.nodes[j as int] == self.nodes[j as int]);
                if self.nodes[j as int].subscribers.contains(i) {
                    let k = choose|k: int|
                        0 <= k < self.nodes[j as int].subscribers.len()
                            && self.nodes[j as int].subscribers[k] == i;
                    assert(self.nodes[j as int].subscribers[k] < n);
                }
            }
        }
        assert forall|i: int, k: int|
            0 <= i < h.nodes.len() && 0 <= k < h.nodes[i].sources.len() implies (
        #[trigger] h.nodes[i].sources[k]) < h.nodes.len() by {
            assert(h.nodes[i] == self.nodes[i]);
            assert(self.nodes[i].sources[k] < n);
        }
        assert forall|i: int, k: int|
            0 <= i < h.nodes.len() && 0 <= k < h.nodes[i].subscribers.len() implies (
        #[trigger] h.nodes[i].subscribers[k]) < h.nodes.len() by {
            assert(h.nodes[i] == self.nodes[i]);
            assert(self.nodes[i].subscribers[k] < n);
        }
        assert forall|i: int| 0 <= i < h.nodes.len() implies (#[trigger] h.nodes[i]).sources.no_duplicates()
            && h.nodes[i].subscribers.no_duplicates() by {
            if i < n {
                assert(h.nodes[i] == self.nodes[i]);
            }
        }
        assert forall|i: int|
            0 <= i < h.nodes.len() implies ((#[trigger] h.nodes[i]).owner matches Some(o)
            ==> o < h.owners.len()) by {
            if i < n {
                assert(h.nodes[i] == self.nodes[i]);
            }
        }
    }

    /// Adding an edge keeps the arena well formed.
    pub proof fn lemma_add_edge_wf(self, source: usize, sub: usize)
        requires
            self.wf(),
        ensures
            self.add_edge(source, sub).wf(),
    {
        let h = self.add_edge(source, sub);
        if self.can_subscribe(source, sub) && !self.nodes[sub as int].sources.contains(source) {
            let n = self.nodes.len();
            assert(!self.nodes[source as int].subscribers.contains(sub));
            assert forall|i: int| 0 <= i < n implies {
                &&& (#[trigger] h.nodes[i]).kind == self.nodes[i].kind
                &&& h.nodes[i].live == self.nodes[i].live
                &&& h.nodes[i].owner == self.nodes[i].owner
                &&& h.nodes[i].sources == (if i == sub {
                    self.nodes[i].sources.push(source)
                } else {
                    self.nodes[i].sources
                })
                &&& h.nodes[i].subscribers == (if i == source {
                    self.nodes[i].subscribers.push(sub)
                } else {
                    self.nodes[i].subscribers
                })
            } by {}
            assert forall|i: usize, j: usize|
                i < h.nodes.len() && j < h.nodes.len() implies (h.nodes[i as int].sources.contains(
                j,
            ) <==> h.nodes[j as int].subscribers.contains(i)) by {
                lemma_push_contains(self.nodes[sub as int].sources, source, j);
                lemma_push_contains(self.nodes[source as int].subscribers, sub, i);
                assert(self.nodes[i as int].sources.contains(j)
                    <==> self.nodes[j as int].subscribers.contains(i));
            }
            assert forall|i: int, k: int|
                0 <= i < h.nodes.len() && 0 <= k < h.nodes[i].sources.len() implies (
            #[trigger] h.nodes[i].sources[k]) < h.nodes.len() by {
                if i == sub && k == self.nodes[i].sources.len() {
                } else {
                    assert(h.nodes[i].sources[k] == self.nodes[i].sources[k]);
                }
            }
            assert forall|i: int, k: int|
                0 <= i < h.nodes.len() && 0 <= k < h.nodes[i].subscribers.len() implies (
            #[trigger] h.nodes[i].subscribers[k]) < h.nodes.len() by {
                if i == source && k == self.nodes[i].subscribers.len() {
                } else {
                    assert(h.nodes[i].subscribers[k] == self.nodes[i].subscribers[k]);
                }
            }
            assert forall|i: int| 0 <= i < h.nodes.len() implies (
            #[trigger] h.nodes[i]).sources.no_duplicates()
                && h.nodes[i].subscribers.no_duplicates() by {
                lemma_push_no_duplicates(self.nodes[sub as int].sources, source);
                lemma_push_no_duplicates(self.nodes[source as int].subscribers, sub);
                assert(self.nodes[i].sources.no_duplicates());
            }
        }
    }

    /// A tracked read keeps the arena well formed.
    pub proof fn lemma_track_wf(self, source: usize)
        requires
            self.wf(),
        ensures
            self.track(source).wf(),
    {
        match self.observer {
            Some(AnySubscriber(sub)) => self.lemma_add_edge_wf(source, sub),
            None => {},
        }
    }

    /// Dropping a node's sources keeps the arena well formed.
    pub proof fn lemma_clear_sources_wf(self, sub: usize)
        requires
            self.wf(),
        ensures
            self.clear_sources(sub).wf(),
    {
        let h = self.clear_sources(sub);
        if sub < self.nodes.len() {
            let keep = |j: usize, i: usize| i != sub;
            assert forall|i: int| 0 <= i < self.nodes.len() implies {
                &&& (#[trigger] h.nodes[i]).sources.no_duplicates()
                &&& h.nodes[i].subscribers.no_duplicates()
            } by {
                lemma_retain_no_duplicates(self.nodes[i].subscribers, other_than(sub));
                assert(self.nodes[i].sources.no_duplicates());
            }
            assert forall|i: int, j: usize| 0 <= i < self.nodes.len() implies (
            #[trigger] h.nodes[i].sources.contains(j) <==> (self.nodes[i].sources.contains(j)
                && keep(j, i as usize))) by {}
            assert forall|j: int, i: usize| 0 <= j < self.nodes.len() implies (
            #[trigger] h.nodes[j].subscribers.contains(i) <==> (self.nodes[j].subscribers.contains(
                i,
            ) && keep(j as usize, i))) by {
                lemma_retain_contains(self.nodes[j].subscribers, other_than(sub), i);
            }
            assert forall|i: int| 0 <= i < self.nodes.len() && !(#[trigger] h.nodes[i]).live implies h.nodes[i].sources.len()
                == 0 && h.nodes[i].subscribers.len() == 0 by {
                assert(self.nodes[i].subscribers.len() == 0);
            }
            lemma_fewer_edges_wf(self, h, keep);
        }
    }

    /// Dropping a node's subscribers keeps the arena well formed.
    pub proof fn lemma_clear_subscribers_wf(self, source: usize)
        requires
            self.wf(),
        ensures
            self.clear_subscribers(source).wf(),
    {
        let h = self.clear_subscribers(source);
        if source < self.nodes.len() {
            let keep = |j: usize, i: usize| j != source;
            assert forall|i: int| 0 <= i < self.nodes.len() implies {
                &&& (#[trigger] h.nodes[i]).sources.no_duplicates()
                &&& h.nodes[i].subscribers.no_duplicates()
            } by {
                lemma_retain_no_duplicates(self.nodes[i].sources, other_than(source));
                assert(self.nodes[i].subscribers.no_duplicates());
            }
            assert forall|i: int, j: usize| 0 <= i < self.nodes.len() implies (
            #[trigger] h.nodes[i].sources.contains(j) <==> (self.nodes[i].sources.contains(j)
                && keep(j, i as usize))) by {
                lemma_retain_contains(self.nodes[i].sources, other_than(source), j);
            }
            assert forall|j: int, i: usize| 0 <= j < self.nodes.len() implies (
            #[trigger] h.nodes[j].subscribers.contains(i) <==> (self.nodes[j].subscribers.contains(
                i,
            ) && keep(j as usize, i))) by {}
            assert forall|i: int| 0 <= i < self.nodes.len() && !(#[trigger] h.nodes[i]).live implies h.nodes[i].sources.len()
                == 0 && h.nodes[i].subscribers.len() == 0 by {
                assert(self.nodes[i].sources.len() == 0);
            }
            lemma_fewer_edges_wf(self, h, keep);
        }
    }

    /// Removing one edge keeps the arena well formed.
    pub proof fn lemma_remove_edge_wf(self, source: usize, sub: usize)
        requires
            self.wf(),
        ensures
            self.remove_edge(source, sub).wf(),
    {
        let h = self.remove_edge(source, sub);
        if source < self.nodes.len() && sub < self.nodes.len() {
            let keep = |j: usize, i: usize| !(j == source && i == sub);
            assert forall|i: int| 0 <= i < self.nodes.len() implies {
                &&& (#[trigger] h.nodes[i]).sources == (if i == sub {
                    without(self.nodes[i].sources, source)
                } else {
                    self.nodes[i].sources
                })
                &&& h.nodes[i].subscribers == (if i == source {
                    without(self.nodes[i].subscribers, sub)
                } else {
                    self.nodes[i].subscribers
                })
                &&& h.nodes[i].kind == self.nodes[i].kind
                &&& h.nodes[i].live == self.nodes[i].live
                &&& h.nodes[i].owner == self.nodes[i].owner
            } by {}
            assert forall|i: int| 0 <= i < self.nodes.len() implies {
                &&& (#[trigger] h.nodes[i]).sources.no_duplicates()
                &&& h.nodes[i].subscribers.no_duplicates()
            } by {
                lemma_retain_no_duplicates(self.nodes[i].sources, other_than(source));
                lemma_retain_no_duplicates(self.nodes[i].subscribers, other_than(sub));
            }
            assert forall|i: int, j: usize| 0 <= i < self.nodes.len() implies (
            #[trigger] h.nodes[i].sources.contains(j) <==> (self.nodes[i].sources.contains(j)
                && keep(j, i as usize))) by {
                lemma_retain_contains(self.nodes[i].sources, other_than(source), j);
            }
            assert forall|j: int, i: usize| 0 <= j < self.nodes.len() implies (
            #[trigger] h.nodes[j].subscribers.contains(i) <==> (self.nodes[j].subscribers.contains(
                i,
            ) && keep(j as usize, i))) by {
                lemma_retain_contains(self.nodes[j].subscribers, other_than(sub), i);
            }
            assert forall|i: int| 0 <= i < self.nodes.len() && !(#[trigger] h.nodes[i]).live implies h.nodes[i].sources.len()
                == 0 && h.nodes[i].subscribers.len() == 0 by {
                assert(self.nodes[i].sources.len() == 0);
                assert(self.nodes[i].subscribers.len() == 0);
            }
            lemma_fewer_edges_wf(self, h, keep);
        }
    }

    /// Emptying slots keeps the arena well formed.
    pub proof fn lemma_detach_wf(self, doomed: spec_fn(usize) -> bool)
        requires
            self.wf(),
        ensures
            self.detach(doomed).wf(),
    {
        let h = self.detach(doomed);
        let keep = |j: usize, i: usize| !doomed(j) && !doomed(i);
        assert forall|i: int| 0 <= i < self.nodes.len() implies {
            &&& (#[trigger] h.nodes[i]).sources.no_duplicates()
            &&& h.nodes[i].subscribers.no_duplicates()
            &&& (!h.nodes[i].live ==> h.nodes[i].sources.len() == 0 && h.nodes[i].subscribers.len()
                == 0)
        } by {
            lemma_retain_no_duplicates(self.nodes[i].sources, spared(doomed));
            lemma_retain_no_duplicates(self.nodes[i].subscribers, spared(doomed));
            if !doomed(i as usize) && !self.nodes[i].live {
                assert(self.nodes[i].sources.len() == 0);
                assert(self.nodes[i].subscribers.len() == 0);
            }
        }
        assert forall|i: int, j: usize| 0 <= i < self.nodes.len() implies (
        #[trigger] h.nodes[i].sources.contains(j) <==> (self.nodes[i].sources.contains(j) && keep(
            j,
            i as usize,
        ))) by {
            lemma_retain_contains(self.nodes[i].sources, spared(doomed), j);
        }
        assert forall|j: int, i: usize| 0 <= j < self.nodes.len() implies (
        #[trigger] h.nodes[j].subscribers.contains(i) <==> (self.nodes[j].subscribers.contains(i)
            && keep(j as usize, i))) by {
            lemma_retain_contains(self.nodes[j].subscribers, spared(doomed), i);
        }
        lemma_fewer_edges_wf(self, h, keep);
    }

    /// Disposing one slot keeps the arena well formed.
    pub proof fn lemma_dispose_node_wf(self, id: usize)
        requires
            self.wf(),
        ensures
            self.dispose_node(id).wf(),
    {
        if self.is_live(id) {
            self.lemma_clear_sources_wf(id);
            let a = self.clear_sources(id);
            a.lemma_clear_subscribers_wf(id);
            let cut = a.clear_subscribers(id);
            let h = self.dispose_node(id);
            let keep = |j: usize, i: usize| true;
            assert(cut.nodes[id as int].sources =~= Seq::empty());
            assert(cut.nodes[id as int].subscribers =~= Seq::empty());
            assert forall|i: int| 0 <= i < cut.nodes.len() implies {
                &&& (#[trigger] h.nodes[i]).sources == cut.nodes[i].sources
                &&& h.nodes[i].subscribers == cut.nodes[i].subscribers
                &&& h.nodes[i].kind == cut.nodes[i].kind
                &&& h.nodes[i].owner == cut.nodes[i].owner
            } by {}
            assert forall|i: int| 0 <= i < cut.nodes.len() && !(#[trigger] h.nodes[i]).live implies h.nodes[i].sources.len()
                == 0 && h.nodes[i].subscribers.len() == 0 by {
                if i != id {
                    assert(!cut.nodes[i].live);
                }
            }
            lemma_fewer_edges_wf(cut, h, keep);
        }
    }

    /// The push phase keeps the arena well formed.
    pub proof fn lemma_propagated_wf(self, from: usize)
        requires
            self.wf(),
        ensures
            self.propagated(from).wf(),
    {
        lemma_same_shape_wf(self, self.propagated(from));
    }

    /// A round of questions keeps the arena well formed.
    pub proof fn lemma_poll_wf(self, id: usize)
        requires
            self.wf(),
        ensures
            self.begin_poll(id).wf(),
            self.end_poll(id).wf(),
            self.told(id).wf(),
    {
        lemma_same_shape_wf(self, self.begin_poll(id));
        lemma_same_shape_wf(self, self.end_poll(id));
        lemma_same_shape_wf(self, self.told(id));
    }

    /// Pulling resolved sources keeps the arena well formed and changes the
    /// plan for no node: all it does is to mark signals as seen.
    pub proof fn lemma_poll_all(self, sources: Seq<usize>)
        requires
            self.wf(),
        ensures
            self.poll_all(sources).wf(),
            self.poll_all(sources).nodes.len() == self.nodes.len(),
            self.poll_all(sources).observer == self.observer,
            forall|x: usize| #[trigger] self.poll_all(sources).plan(x) == self.plan(x),
            forall|x: usize|
                self.poll_all(sources).is_a(x, NodeKind::Effect) == #[trigger] self.is_a(
                    x,
                    NodeKind::Effect,
                ),
            forall|x: usize|
                x < self.nodes.len() && self.nodes[x as int].kind != NodeKind::Signal
                    ==> #[trigger] self.poll_all(sources).nodes[x as int] == self.nodes[x as int],
            forall|x: usize| #[trigger] self.poll_all(sources).is_written(x) ==> self.is_written(x),
        decreases sources.len(),
    {
        if sources.len() > 0 {
            let before = self.poll_all(sources.drop_last());
            self.lemma_poll_all(sources.drop_last());
            before.lemma_settle_wf(sources.last());
            let after = before.poll_signal(sources.last());
            assert forall|x: usize| #[trigger] after.is_written(x) implies self.is_written(x) by {
                assert(before.is_written(x));
            }
            assert forall|x: usize| #[trigger] after.plan(x) == self.plan(x) by {
                assert(before.plan(x) == self.plan(x));
            }
            assert forall|x: usize|
                after.is_a(x, NodeKind::Effect) == #[trigger] self.is_a(x, NodeKind::Effect) by {
                assert(before.is_a(x, NodeKind::Effect) == self.is_a(x, NodeKind::Effect));
            }
            assert forall|x: usize|
                x < self.nodes.len() && self.nodes[x as int].kind
                    != NodeKind::Signal implies #[trigger] after.nodes[x as int]
                == self.nodes[x as int] by {
                assert(before.nodes[x as int] == self.nodes[x as int]);
            }
        }
    }

    /// A round of questions to resolved sources keeps the arena well formed
    /// and changes the plan for no node: all it does is to mark signals as
    /// seen.
    pub proof fn lemma_asked(self, id: usize)
        requires
            self.wf(),
            self.can_run(id),
        ensures
            self.asked(id).wf(),
            self.asked(id).nodes.len() == self.nodes.len(),
            self.asked(id).observer == self.observer,
            forall|x: usize| #[trigger] self.asked(id).plan(x) == self.plan(x),
            forall|x: usize|
                self.asked(id).is_a(x, NodeKind::Effect) == #[trigger] self.is_a(
                    x,
                    NodeKind::Effect,
                ),
            forall|x: usize|
                x < self.nodes.len() && self.nodes[x as int].kind != NodeKind::Signal
                    ==> #[trigger] self.asked(id).nodes[x as int] == self.nodes[x as int],
    {
        let sources = self.nodes[id as int].sources;
        self.lemma_poll_wf(id);
        let begun = self.begin_poll(id);
        begun.lemma_poll_all(sources);
        let polled = begun.poll_all(sources);
        polled.lemma_poll_wf(id);
        let asked = polled.end_poll(id);
        assert(asked == self.asked(id));
        assert(polled.nodes[id as int] == begun.nodes[id as int]);
        assert forall|x: usize| #[trigger] asked.plan(x) == self.plan(x) by {
            assert(polled.plan(x) == begun.plan(x));
        }
        assert forall|x: usize|
            asked.is_a(x, NodeKind::Effect) == #[trigger] self.is_a(x, NodeKind::Effect) by {
            assert(polled.is_a(x, NodeKind::Effect) == begun.is_a(x, NodeKind::Effect));
        }
        assert forall|x: usize|
            x < self.nodes.len() && self.nodes[x as int].kind
                != NodeKind::Signal implies #[trigger] asked.nodes[x as int]
            == self.nodes[x as int] by {
            assert(begun.nodes[x as int].kind != NodeKind::Signal);
            assert(polled.nodes[x as int] == begun.nodes[x as int]);
        }
    }

    /// A write keeps the arena well formed.
    pub proof fn lemma_write_wf(self, id: usize, value: T)
        requires
            self.wf(),
        ensures
            self.write(id, value).wf(),
    {
        lemma_same_shape_wf(self, self.write(id, value));
    }

    /// Starting a run keeps the arena well formed.
    pub proof fn lemma_begin_run_wf(self, id: usize)
        requires
            self.wf(),
        ensures
            self.begin_run(id).wf(),
    {
        if self.can_run(id) {
            self.lemma_clear_sources_wf(id);
            lemma_same_shape_wf(self.clear_sources(id), self.begin_run(id));
        }
    }

    /// Finishing a run keeps the arena well formed.
    pub proof fn lemma_finish_run_wf(self, id: usize, value: T, changed: bool)
        requires
            self.wf(),
        ensures
            self.finish_run(id, value, changed).wf(),
    {
        lemma_same_shape_wf(self, self.finish_run(id, value, changed));
    }

    /// Settling a node keeps the arena well formed.
    pub proof fn lemma_settle_wf(self, id: usize)
        requires
            self.wf(),
        ensures
            self.settle(id).wf(),
            self.poll_signal(id).wf(),
    {
        lemma_same_shape_wf(self, self.settle(id));
        lemma_same_shape_wf(self, self.poll_signal(id));
    }

    /// Registering a cleanup keeps the arena well formed.
    pub proof fn lemma_on_cleanup_wf(self)
        requires
            self.wf(),
            self.cleanups.len() < usize::MAX,
        ensures
            self.on_cleanup().wf(),
    {
        let c = self.on_cleanup();
        assert forall|k: int| 0 <= k < c.cleanups.len() implies (#[trigger] c.cleanups[k]).owner
            < c.owners.len() by {
            if k < self.cleanups.len() {
                assert(c.cleanups[k] == self.cleanups[k]);
            }
        }
    }

    /// Opening a scope keeps the arena well formed.
    pub proof fn lemma_new_owner_wf(self)
        requires
            self.wf(),
            self.owners.len() < usize::MAX,
        ensures
            self.new_owner().wf(),
    {
        let h = self.new_owner();
        assert forall|j: int| 0 <= j < h.owners.len() implies ((#[trigger] h.owners[j]).parent matches Some(
            p,
        ) ==> p < j) by {
            if j < self.owners.len() {
                assert(h.owners[j] == self.owners[j]);
            }
        }
    }

    /// Disposing a scope keeps the arena well formed.
    pub proof fn lemma_dispose_owner_wf(self, root: usize)
        requires
            self.wf(),
        ensures
            self.dispose_owner(root).wf(),
    {
        let d = self.detach(self.owned_below(root));
        self.lemma_detach_wf(self.owned_below(root));
        let h = self.dispose_owner(root);
        assert(h.nodes == d.nodes);
        assert forall|j: int| 0 <= j < h.owners.len() implies ((#[trigger] h.owners[j]).parent matches Some(
            p,
        ) ==> p < j) by {
            assert(h.owners[j].parent == self.owners[j].parent);
        }
        assert forall|k: int| 0 <= k < h.cleanups.len() implies (#[trigger] h.cleanups[k]).owner
            < h.owners.len() by {
            assert(h.cleanups[k].owner == self.cleanups[k].owner);
        }
        assert forall|i: int| 0 <= i < h.nodes.len() implies ((#[trigger] h.nodes[i]).owner matches Some(
            o,
        ) ==> o < h.owners.len()) by {
            assert(d.nodes[i].owner == self.nodes[i].owner);
        }
    }
}

} // verus!
