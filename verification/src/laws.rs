//! What holds of the runtime as a whole, proved from the transitions of
//! the model.

use crate::model::{in_subtree, GraphModel, Pull};
use crate::node::{AnySubscriber, ReactiveError};
use crate::replay::{replay_poll, replay_pull, replay_run, Replayed, Run, Trace};
use crate::node::{NodeKind, NodeModel, ReactiveNodeState};
use crate::seq_util::{lemma_retain_idempotent, retain, spared};
use vstd::prelude::*;

verus! {

impl<T> GraphModel<T> {
    /// Whoever is reachable is the subscriber of a node that is the start
    /// or is reachable itself.
    pub proof fn lemma_reach_last_hop(self, from: usize, to: usize) -> (before: usize)
        requires
            self.reaches(from, to),
        ensures
            self.edge(before, to),
            before == from || self.reaches(from, before),
    {
        let p = choose|p: Seq<usize>| #[trigger] self.is_path(p) && p[0] == from && p.last() == to;
        let last = p.len() - 2;
        assert(self.hop(p, last));
        let before = p[last];
        if p.len() > 2 {
            let q = p.drop_last();
            assert(self.is_path(q)) by {
                assert forall|k: int| 0 <= k < q.len() - 1 implies #[trigger] self.hop(q, k) by {
                    assert(self.hop(p, k));
                    assert(q[k] == p[k] && q[k + 1] == p[k + 1]);
                }
            }
            assert(q[0] == from && q.last() == before);
        }
        before
    }

    /// A node that nobody lists as a subscriber is not reachable.
    pub proof fn lemma_no_incoming(self, from: usize, to: usize)
        requires
            forall|i: usize| !self.edge(i, to),
        ensures
            !self.reaches(from, to),
    {
        if self.reaches(from, to) {
            let before = self.lemma_reach_last_hop(from, to);
        }
    }

    /// A node without sources is not reachable.
    pub proof fn lemma_sourceless_unreachable(self, from: usize, to: usize)
        requires
            self.wf(),
            to < self.nodes.len(),
            self.nodes[to as int].sources.len() == 0,
        ensures
            !self.reaches(from, to),
    {
        assert forall|i: usize| !self.edge(i, to) by {
            if self.edge(i, to) {
                assert(self.nodes[to as int].sources.contains(i));
            }
        }
        self.lemma_no_incoming(from, to);
    }

    /// Whoever is reachable has a source that is the start or is reachable
    /// itself.
    pub proof fn lemma_reach_via_source(self, from: usize, to: usize) -> (k: int)
        requires
            self.wf(),
            self.reaches(from, to),
        ensures
            to < self.nodes.len(),
            0 <= k < self.nodes[to as int].sources.len(),
            self.nodes[to as int].sources[k] == from || self.reaches(
                from,
                self.nodes[to as int].sources[k],
            ),
    {
        self.lemma_reaches_in_range(from, to);
        let before = self.lemma_reach_last_hop(from, to);
        let subs = self.nodes[before as int].subscribers;
        let m = choose|m: int| 0 <= m < subs.len() && subs[m] == to;
        if before != from {
            self.lemma_reaches_in_range(from, before);
        }
        assert(self.nodes[to as int].sources.contains(before));
        choose|k: int|
            0 <= k < self.nodes[to as int].sources.len() && self.nodes[to as int].sources[k]
                == before
    }

    /// A recorded source reaches whoever recorded it.
    pub proof fn lemma_source_reaches(self, source: usize, reader: usize)
        requires
            self.wf(),
            reader < self.nodes.len(),
            self.nodes[reader as int].sources.contains(source),
        ensures
            self.edge(source, reader),
            self.reaches(source, reader),
    {
        let srcs = self.nodes[reader as int].sources;
        let k = choose|k: int| 0 <= k < srcs.len() && srcs[k] == source;
        assert(srcs[k] < self.nodes.len());
        self.lemma_edge_reaches(source, reader);
    }

    /// The push phase touches nothing but the state and the change flag of
    /// what is downstream.
    pub proof fn lemma_propagated_frame(self, from: usize, id: usize)
        requires
            id < self.nodes.len(),
        ensures
            self.propagated(from).nodes.len() == self.nodes.len(),
            self.propagated(from).nodes[id as int].value == self.nodes[id as int].value,
            self.propagated(from).nodes[id as int].runs == self.nodes[id as int].runs,
            self.propagated(from).nodes[id as int].running == self.nodes[id as int].running,
            self.propagated(from).nodes[id as int].live == self.nodes[id as int].live,
            self.propagated(from).nodes[id as int].kind == self.nodes[id as int].kind,
            self.propagated(from).nodes[id as int].sources == self.nodes[id as int].sources,
            self.propagated(from).nodes[id as int].subscribers == self.nodes[id as int].subscribers,
            !self.reaches(from, id) ==> self.propagated(from).nodes[id as int]
                == self.nodes[id as int],
            self.reaches(from, id) ==> self.propagated(from).nodes[id as int]
                == self.nodes[id as int].marked(self.edge(from, id)),
    {
    }
}

// ----- a clean memo answers from its cache ----------------------------------

/// A read of a clean memo leaves it clean, with the value and the run
/// count it had, and starts no run anywhere in the graph. So the next read
/// finds the memo as this one did, and so does every read after that.
pub proof fn law_clean_read_repeats<T>(g: GraphModel<T>, memo: usize)
    requires
        g.wf(),
        g.is_a(memo, NodeKind::Memo),
        g.plan(memo) == Pull::Fresh,
    ensures
        g.track(memo).wf(),
        g.track(memo).is_a(memo, NodeKind::Memo),
        g.track(memo).plan(memo) == Pull::Fresh,
        g.nodes[memo as int].value is Some,
        g.track(memo).nodes[memo as int].value == g.nodes[memo as int].value,
        g.track(memo).nodes.len() == g.nodes.len(),
        forall|i: int|
            0 <= i < g.nodes.len() ==> (#[trigger] g.track(memo).nodes[i]).runs == g.nodes[i].runs,
        forall|i: int|
            0 <= i < g.nodes.len() ==> (#[trigger] g.track(memo).nodes[i]).state
                == g.nodes[i].state,
{
    g.lemma_track_wf(memo);
    assert(g.nodes[memo as int].is_sound());
}

/// The read of a clean memo, as the pull makes it: whatever trace fits,
/// it holds no run. The graph, the table of functions and the wake-up
/// requests are left as they were, the answer is "unchanged", and the read
/// returns the cached value. What the read leaves behind is the graph with
/// the edge to the observer recorded, in which the memo is clean again: a
/// second read runs nothing either.
pub proof fn law_read_of_clean_memo_runs_nothing<T: PartialEq + Copy, R>(
    g: GraphModel<T>,
    memo: usize,
    table: R,
    requests: Seq<usize>,
    depth: nat,
    t: Trace<T, R>,
)
    requires
        g.wf(),
        g.is_a(memo, NodeKind::Memo),
        g.plan(memo) == Pull::Fresh,
        replay_pull(g, table, requests, memo, depth, t).fits,
    ensures
        ({
            let r = replay_pull(g, table, requests, memo, depth, t);
            &&& forall|run: Run<T, R>| !t.holds(run)
            &&& r.graph == g
            &&& r.table == table
            &&& r.requests == requests
            &&& r.outcome == Ok::<bool, ReactiveError>(false)
            &&& g.nodes[memo as int].value matches Some(cached)
            &&& r.read(memo) == Ok::<T, ReactiveError>(cached)
            &&& r.after_read(memo) == g.track(memo)
            &&& r.after_read(memo).plan(memo) == Pull::Fresh
            &&& r.after_read(memo).nodes[memo as int].runs == g.nodes[memo as int].runs
        }),
{
    law_clean_read_repeats(g, memo);
    assert forall|run: Run<T, R>| !t.holds(run) by {
        t.lemma_quiet_holds_nothing(run);
    }
}

// ----- a write is answered by exactly one run --------------------------------

/// After a write to a signal upstream of a clean memo, a read of the memo
/// cannot be answered from the cache; where the signal is a direct source,
/// the memo is due for a run at once. The run, reading the signal again,
/// raises the memo's run count by exactly one and leaves the memo clean
/// with the value that was computed: reads that follow are answered from
/// the cache until something upstream is written again.
pub proof fn law_write_then_read_runs_once<T>(
    g: GraphModel<T>,
    signal: usize,
    memo: usize,
    written: T,
    computed: T,
    changed: bool,
)
    requires
        g.wf(),
        g.is_a(signal, NodeKind::Signal),
        g.is_a(memo, NodeKind::Memo),
        g.plan(memo) == Pull::Fresh,
        g.reaches(signal, memo),
    ensures
        ({
            let marked = g.write(signal, written);
            let run = marked.begin_run(memo).add_edge(signal, memo);
            let done = run.finish_run(memo, computed, changed);
            &&& marked.nodes[signal as int].value == Some(written)
            &&& marked.plan(memo) == Pull::Stale || marked.plan(memo) == Pull::Unsure
            &&& g.edge(signal, memo) ==> marked.plan(memo) == Pull::Stale
            &&& marked.can_run(memo)
            &&& run.nodes[memo as int].runs == g.nodes[memo as int].runs + 1
            &&& run.nodes[memo as int].sources == seq![signal]
            &&& done.wf()
            &&& done.plan(memo) == Pull::Fresh
            &&& done.nodes[memo as int].value == Some(computed)
            &&& done.nodes[memo as int].runs == g.nodes[memo as int].runs + 1
        }),
{
    let cell = g.nodes[signal as int];
    let stored = GraphModel {
        nodes: g.nodes.update(
            signal as int,
            NodeModel { value: Some(written), state: ReactiveNodeState::Dirty, ..cell },
        ),
        ..g
    };
    g.lemma_same_edges_reaches(stored, signal, memo);
    g.lemma_write_wf(signal, written);
    let marked = g.write(signal, written);
    assert(marked == stored.propagated(signal));
    stored.lemma_propagated_frame(signal, memo);
    stored.lemma_propagated_frame(signal, signal);
    // a signal has no sources, so it is not downstream of itself
    crate::wellformed::lemma_same_shape_wf(g, stored);
    stored.lemma_sourceless_unreachable(signal, signal);
    assert(marked.nodes[memo as int] == stored.nodes[memo as int].marked(stored.edge(signal, memo)));
    // the run
    marked.lemma_begin_run_wf(memo);
    let begun = marked.begin_run(memo);
    begun.lemma_add_edge_wf(signal, memo);
    let run = begun.add_edge(signal, memo);
    assert(begun.nodes[memo as int].sources =~= Seq::empty());
    assert(begun.can_subscribe(signal, memo));
    assert(run.nodes[memo as int].sources =~= seq![signal]);
    run.lemma_finish_run_wf(memo, computed, changed);
    // nothing but the signal lists the memo, and nothing lists the signal
    let kept = GraphModel {
        nodes: run.nodes.update(
            memo as int,
            NodeModel {
                value: Some(computed),
                state: ReactiveNodeState::Clean,
                running: false,
                invalidated: false,
                ..run.nodes[memo as int]
            },
        ),
        ..run
    };
    if kept.reaches(memo, memo) {
        let before = kept.lemma_reach_last_hop(memo, memo);
        assert(kept.nodes[before as int].subscribers == run.nodes[before as int].subscribers);
        assert(run.edge(before, memo));
        assert(run.nodes[memo as int].sources.contains(before));
        assert(before == signal);
        crate::wellformed::lemma_same_shape_wf(run, kept);
        kept.lemma_sourceless_unreachable(memo, signal);
    }
    kept.lemma_propagated_frame(memo, memo);
}

/// A write starts no run and takes no pending one back: every run count is
/// as before, and a memo that was due for a run, or in doubt, is not clean
/// afterwards. So however many writes come before a read, the read finds
/// one run to make.
pub proof fn law_writes_batch<T>(g: GraphModel<T>, signal: usize, memo: usize, written: T)
    requires
        g.wf(),
        g.is_a(signal, NodeKind::Signal),
        g.is_a(memo, NodeKind::Memo),
    ensures
        g.write(signal, written).nodes.len() == g.nodes.len(),
        forall|i: int|
            0 <= i < g.nodes.len() ==> (#[trigger] g.write(signal, written).nodes[i]).runs
                == g.nodes[i].runs,
        g.plan(memo) == Pull::Stale ==> g.write(signal, written).plan(memo) == Pull::Stale,
        g.plan(memo) == Pull::Unsure ==> g.write(signal, written).plan(memo) != Pull::Fresh,
        g.plan(memo) == Pull::Busy ==> g.write(signal, written).plan(memo) == Pull::Busy,
{
    lemma_write_frame(g, signal, written);
    assert forall|i: int| 0 <= i < g.nodes.len() implies (#[trigger] g.write(
        signal,
        written,
    ).nodes[i]).runs == g.nodes[i].runs by {
        if i != signal {
            assert(g.write(signal, written).nodes[i as usize as int] == (if g.reaches(
                signal,
                i as usize,
            ) {
                g.nodes[i].marked(g.edge(signal, i as usize))
            } else {
                g.nodes[i]
            }));
        } else {
            g.lemma_sourceless_unreachable(signal, signal);
            let stored = GraphModel {
                nodes: g.nodes.update(
                    signal as int,
                    NodeModel {
                        value: Some(written),
                        state: ReactiveNodeState::Dirty,
                        ..g.nodes[signal as int]
                    },
                ),
                ..g
            };
            stored.lemma_propagated_frame(signal, signal);
        }
    }
    assert(g.write(signal, written).nodes[memo as int] == (if g.reaches(signal, memo) {
        g.nodes[memo as int].marked(g.edge(signal, memo))
    } else {
        g.nodes[memo as int]
    }));
}

// ----- what has been recomputed stays clean ----------------------------------

/// Once a memo has been recomputed it is clean, and it stays clean through
/// everything that the rest of a read does: edges being recorded, nodes
/// being settled, and runs of nodes that the memo is not downstream of. So
/// a read that reaches the memo again, along another path or a longer one,
/// finds it clean and is answered from the cache.
pub proof fn law_recomputed_stays_clean<T>(
    g: GraphModel<T>,
    memo: usize,
    other: usize,
    value: T,
    changed: bool,
    source: usize,
    reader: usize,
)
    requires
        g.wf(),
        g.is_a(memo, NodeKind::Memo),
        g.plan(memo) == Pull::Fresh,
        other != memo,
        !g.reaches(other, memo),
    ensures
        g.add_edge(source, reader).plan(memo) == Pull::Fresh,
        g.settle(other).plan(memo) == Pull::Fresh,
        g.poll_signal(other).plan(memo) == Pull::Fresh,
        g.begin_run(other).plan(memo) == Pull::Fresh,
        g.finish_run(other, value, changed).plan(memo) == Pull::Fresh,
        g.add_edge(source, reader).nodes[memo as int].runs == g.nodes[memo as int].runs,
        g.settle(other).nodes[memo as int].runs == g.nodes[memo as int].runs,
        g.begin_run(other).nodes[memo as int].runs == g.nodes[memo as int].runs,
        g.finish_run(other, value, changed).nodes[memo as int].runs == g.nodes[memo as int].runs,
{
    if g.is_running(other) {
        let node = g.nodes[other as int];
        let stored = GraphModel {
            nodes: g.nodes.update(
                other as int,
                NodeModel {
                    value: Some(value),
                    state: ReactiveNodeState::Clean,
                    running: false,
                    invalidated: false,
                    ..node
                },
            ),
            ..g
        };
        g.lemma_same_edges_reaches(stored, other, memo);
        stored.lemma_propagated_frame(other, memo);
    }
}

/// The end of a run leaves the node clean with what it computed, whatever
/// it read, as long as it is not downstream of itself.
pub proof fn law_run_ends_clean<T>(g: GraphModel<T>, node: usize, value: T, changed: bool)
    requires
        g.wf(),
        g.is_running(node),
        g.nodes[node as int].kind != NodeKind::Signal,
        !g.reaches(node, node),
    ensures
        g.finish_run(node, value, changed).plan(node) == Pull::Fresh,
        g.finish_run(node, value, changed).nodes[node as int].value == Some(value),
        g.finish_run(node, value, changed).nodes[node as int].runs == g.nodes[node as int].runs,
{
    let stored = GraphModel {
        nodes: g.nodes.update(
            node as int,
            NodeModel {
                value: Some(value),
                state: ReactiveNodeState::Clean,
                running: false,
                invalidated: false,
                ..g.nodes[node as int]
            },
        ),
        ..g
    };
    g.lemma_same_edges_reaches(stored, node, node);
    stored.lemma_propagated_frame(node, node);
}

/// A chain `c = f(a, b)`, `d = g(c)`, `e = h(d)` after a write to `a`, read
/// at `e`: the read asks `d`, which asks `c`, which has been told of the
/// change and runs. Its changed value makes `d` run, which reads `c` and
/// finds it clean; and `e` likewise with `d`. At the end each of the three
/// has run exactly once and is clean, with the value it computed.
pub proof fn law_chain_runs_each_link_once<T>(
    g: GraphModel<T>,
    a: usize,
    b: usize,
    c: usize,
    d: usize,
    e: usize,
    written: T,
    at_c: T,
    at_d: T,
    at_e: T,
    e_changed: bool,
)
    requires
        g.wf(),
        g.is_a(a, NodeKind::Signal),
        g.is_a(b, NodeKind::Signal),
        a != b,
        g.is_a(c, NodeKind::Memo),
        g.is_a(d, NodeKind::Memo),
        g.is_a(e, NodeKind::Memo),
        c != d && d != e && c != e,
        g.plan(c) == Pull::Fresh,
        g.plan(d) == Pull::Fresh,
        g.plan(e) == Pull::Fresh,
        g.nodes[c as int].sources == seq![a, b],
        g.nodes[d as int].sources == seq![c],
        g.nodes[e as int].sources == seq![d],
    ensures
        ({
            let marked = g.write(a, written);
            let c_ran = marked.begin_run(c).add_edge(a, c).add_edge(b, c).finish_run(
                c,
                at_c,
                true,
            );
            let d_reads = c_ran.begin_run(d);
            let d_ran = d_reads.add_edge(c, d).finish_run(d, at_d, true);
            let e_reads = d_ran.begin_run(e);
            let e_ran = e_reads.add_edge(d, e).finish_run(e, at_e, e_changed);
            // after the write: only `c` knows that it has to run
            &&& marked.plan(c) == Pull::Stale
            &&& marked.plan(d) == Pull::Unsure
            &&& marked.plan(e) == Pull::Unsure
            // after the run of `c`
            &&& c_ran.plan(c) == Pull::Fresh
            &&& c_ran.plan(d) == Pull::Stale
            &&& c_ran.plan(e) == Pull::Unsure
            // `d` reads `c` from the cache
            &&& d_reads.plan(c) == Pull::Fresh
            &&& d_ran.plan(c) == Pull::Fresh
            &&& d_ran.plan(d) == Pull::Fresh
            &&& d_ran.plan(e) == Pull::Stale
            // `e` reads `d` from the cache
            &&& e_reads.plan(d) == Pull::Fresh
            &&& e_ran.plan(c) == Pull::Fresh
            &&& e_ran.plan(d) == Pull::Fresh
            &&& e_ran.plan(e) == Pull::Fresh
            // each has run exactly once
            &&& e_ran.nodes[c as int].runs == g.nodes[c as int].runs + 1
            &&& e_ran.nodes[d as int].runs == g.nodes[d as int].runs + 1
            &&& e_ran.nodes[e as int].runs == g.nodes[e as int].runs + 1
            &&& e_ran.nodes[c as int].value == Some(at_c)
            &&& e_ran.nodes[d as int].value == Some(at_d)
            &&& e_ran.nodes[e as int].value == Some(at_e)
        }),
{
    // the write
    g.lemma_write_wf(a, written);
    let marked = g.write(a, written);
    lemma_write_frame(g, a, written);
    lemma_chain_start(g, a, b, c, d, e);
    assert(marked.plan(c) == Pull::Stale);
    assert(marked.plan(d) == Pull::Unsure);
    assert(marked.plan(e) == Pull::Unsure);

    // the run of `c`
    lemma_rerun_two(marked, a, b, c);
    let c_read = marked.begin_run(c).add_edge(a, c).add_edge(b, c);
    assert(same_inside(marked, c_read, d) && same_inside(marked, c_read, e));
    assert(same_inside(marked, c_read, a) && same_inside(marked, c_read, b));
    lemma_chain_shape(c_read, a, b, c, d, e);
    lemma_finish_frame(c_read, c, at_c, true);
    let c_ran = c_read.finish_run(c, at_c, true);
    assert(c_ran.plan(c) == Pull::Fresh);
    assert(c_ran.plan(d) == Pull::Stale);
    assert(c_ran.plan(e) == Pull::Unsure);

    // the run of `d`
    lemma_rerun_one(c_ran, c, d);
    let d_reads = c_ran.begin_run(d);
    let d_read = d_reads.add_edge(c, d);
    assert(same_inside(c_ran, d_read, c) && same_inside(c_ran, d_read, e));
    assert(same_inside(c_ran, d_read, a) && same_inside(c_ran, d_read, b));
    lemma_chain_shape(d_read, a, b, c, d, e);
    lemma_finish_frame(d_read, d, at_d, true);
    let d_ran = d_read.finish_run(d, at_d, true);
    assert(d_ran.plan(c) == Pull::Fresh);
    assert(d_ran.plan(d) == Pull::Fresh);
    assert(d_ran.plan(e) == Pull::Stale);

    // the run of `e`
    lemma_rerun_one(d_ran, d, e);
    let e_reads = d_ran.begin_run(e);
    let e_read = e_reads.add_edge(d, e);
    assert(same_inside(d_ran, e_read, c) && same_inside(d_ran, e_read, d));
    assert(same_inside(d_ran, e_read, a) && same_inside(d_ran, e_read, b));
    lemma_chain_shape(e_read, a, b, c, d, e);
    lemma_finish_frame(e_read, e, at_e, e_changed);
}

/// Everything about node `id` but who subscribes to it is the same in both
/// graphs.
spec fn same_inside<T>(g: GraphModel<T>, h: GraphModel<T>, id: usize) -> bool {
    &&& id < g.nodes.len()
    &&& id < h.nodes.len()
    &&& h.nodes[id as int] == (NodeModel {
        subscribers: h.nodes[id as int].subscribers,
        ..g.nodes[id as int]
    })
}

/// What a write does to the nodes of the graph.
proof fn lemma_write_frame<T>(g: GraphModel<T>, signal: usize, written: T)
    requires
        g.wf(),
        g.is_a(signal, NodeKind::Signal),
    ensures
        g.write(signal, written).nodes.len() == g.nodes.len(),
        forall|x: usize|
            x < g.nodes.len() && x != signal ==> #[trigger] g.write(signal, written).nodes[x as int]
                == (if g.reaches(signal, x) {
                g.nodes[x as int].marked(g.edge(signal, x))
            } else {
                g.nodes[x as int]
            }),
{
    let stored = GraphModel {
        nodes: g.nodes.update(
            signal as int,
            NodeModel {
                value: Some(written),
                state: ReactiveNodeState::Dirty,
                ..g.nodes[signal as int]
            },
        ),
        ..g
    };
    assert forall|x: usize| x < g.nodes.len() && x != signal implies #[trigger] g.write(
        signal,
        written,
    ).nodes[x as int] == (if g.reaches(signal, x) {
        g.nodes[x as int].marked(g.edge(signal, x))
    } else {
        g.nodes[x as int]
    }) by {
        g.lemma_same_edges_reaches(stored, signal, x);
        stored.lemma_propagated_frame(signal, x);
    }
}

/// What the end of a run does to the nodes of the graph.
proof fn lemma_finish_frame<T>(g: GraphModel<T>, id: usize, value: T, changed: bool)
    requires
        g.wf(),
        g.is_running(id),
    ensures
        g.finish_run(id, value, changed).wf(),
        g.finish_run(id, value, changed).nodes.len() == g.nodes.len(),
        forall|x: usize|
            x < g.nodes.len() && x != id ==> #[trigger] g.finish_run(id, value, changed).nodes[x as int]
                == (if changed && g.reaches(id, x) {
                g.nodes[x as int].marked(g.edge(id, x))
            } else {
                g.nodes[x as int]
            }),
        !g.reaches(id, id) ==> g.finish_run(id, value, changed).nodes[id as int] == (NodeModel {
            value: Some(value),
            state: ReactiveNodeState::Clean,
            running: false,
            invalidated: false,
            ..g.nodes[id as int]
        }),
{
    g.lemma_finish_run_wf(id, value, changed);
    let stored = GraphModel {
        nodes: g.nodes.update(
            id as int,
            NodeModel {
                value: Some(value),
                state: ReactiveNodeState::Clean,
                running: false,
                invalidated: false,
                ..g.nodes[id as int]
            },
        ),
        ..g
    };
    assert forall|x: usize| x < g.nodes.len() && x != id implies #[trigger] g.finish_run(
        id,
        value,
        changed,
    ).nodes[x as int] == (if changed && g.reaches(id, x) {
        g.nodes[x as int].marked(g.edge(id, x))
    } else {
        g.nodes[x as int]
    }) by {
        g.lemma_same_edges_reaches(stored, id, x);
        stored.lemma_propagated_frame(id, x);
    }
    g.lemma_same_edges_reaches(stored, id, id);
    stored.lemma_propagated_frame(id, id);
}

/// What a run that reads one source does to the graph before it ends.
proof fn lemma_rerun_one<T>(g: GraphModel<T>, source: usize, reader: usize)
    requires
        g.wf(),
        g.can_run(reader),
        g.is_live(source),
        g.nodes[source as int].kind != NodeKind::Effect,
        source != reader,
    ensures
        ({
            let begun = g.begin_run(reader);
            let h = begun.add_edge(source, reader);
            &&& h.wf()
            &&& h.nodes.len() == g.nodes.len()
            &&& h.nodes[reader as int] == (NodeModel {
                sources: seq![source],
                subscribers: h.nodes[reader as int].subscribers,
                running: true,
                invalidated: false,
                runs: g.nodes[reader as int].runs + 1,
                ..g.nodes[reader as int]
            })
            &&& forall|x: usize|
                x < g.nodes.len() && x != reader ==> #[trigger] same_inside(g, h, x)
            &&& forall|x: usize|
                x < g.nodes.len() && x != reader ==> #[trigger] same_inside(g, begun, x)
        }),
{
    g.lemma_begin_run_wf(reader);
    let begun = g.begin_run(reader);
    begun.lemma_add_edge_wf(source, reader);
    let h = begun.add_edge(source, reader);
    assert(begun.nodes[reader as int].sources =~= Seq::empty());
    assert(h.nodes[reader as int].sources =~= seq![source]);
}

/// What a run that reads two sources does to the graph before it ends.
proof fn lemma_rerun_two<T>(g: GraphModel<T>, first: usize, second: usize, reader: usize)
    requires
        g.wf(),
        g.can_run(reader),
        g.is_live(first),
        g.is_live(second),
        g.nodes[first as int].kind != NodeKind::Effect,
        g.nodes[second as int].kind != NodeKind::Effect,
        first != reader,
        second != reader,
        first != second,
    ensures
        ({
            let h = g.begin_run(reader).add_edge(first, reader).add_edge(second, reader);
            &&& h.wf()
            &&& h.nodes.len() == g.nodes.len()
            &&& h.nodes[reader as int] == (NodeModel {
                sources: seq![first, second],
                subscribers: h.nodes[reader as int].subscribers,
                running: true,
                invalidated: false,
                runs: g.nodes[reader as int].runs + 1,
                ..g.nodes[reader as int]
            })
            &&& forall|x: usize|
                x < g.nodes.len() && x != reader ==> #[trigger] same_inside(g, h, x)
        }),
{
    lemma_rerun_one(g, first, reader);
    let one = g.begin_run(reader).add_edge(first, reader);
    one.lemma_add_edge_wf(second, reader);
    let h = one.add_edge(second, reader);
    assert(!one.nodes[reader as int].sources.contains(second)) by {
        if one.nodes[reader as int].sources.contains(second) {
            let k = choose|k: int|
                0 <= k < one.nodes[reader as int].sources.len()
                    && one.nodes[reader as int].sources[k] == second;
        }
    }
    assert(h.nodes[reader as int].sources =~= seq![first, second]);
    assert forall|x: usize| x < g.nodes.len() && x != reader implies #[trigger] same_inside(
        g,
        h,
        x,
    ) by {
        assert(same_inside(g, one, x));
    }
}

/// In a chain, a write to the first signal reaches every memo, and is a
/// direct source of the first one only.
proof fn lemma_chain_start<T>(g: GraphModel<T>, a: usize, b: usize, c: usize, d: usize, e: usize)
    requires
        g.wf(),
        g.is_a(a, NodeKind::Signal),
        g.is_a(b, NodeKind::Signal),
        g.is_a(c, NodeKind::Memo),
        g.is_a(d, NodeKind::Memo),
        g.is_a(e, NodeKind::Memo),
        c != d && d != e && c != e,
        g.nodes[c as int].sources == seq![a, b],
        g.nodes[d as int].sources == seq![c],
        g.nodes[e as int].sources == seq![d],
    ensures
        g.edge(a, c),
        !g.edge(a, d),
        !g.edge(a, e),
        g.reaches(a, c),
        g.reaches(a, d),
        g.reaches(a, e),
{
    lemma_chain_shape(g, a, b, c, d, e);
    assert(g.nodes[c as int].sources.contains(a)) by {
        assert(g.nodes[c as int].sources[0] == a);
    }
    g.lemma_source_reaches(a, c);
    g.lemma_reach_step(a, c, d);
    g.lemma_reach_step(a, d, e);
    if g.edge(a, d) {
        assert(g.nodes[d as int].sources.contains(a));
    }
    if g.edge(a, e) {
        assert(g.nodes[e as int].sources.contains(a));
    }
}

/// In a chain, a write to either signal reaches every memo, and is a
/// direct source of the first one only.
proof fn lemma_chain_written<T>(
    g: GraphModel<T>,
    cell: usize,
    a: usize,
    b: usize,
    c: usize,
    d: usize,
    e: usize,
)
    requires
        g.wf(),
        g.is_a(a, NodeKind::Signal),
        g.is_a(b, NodeKind::Signal),
        g.is_a(c, NodeKind::Memo),
        g.is_a(d, NodeKind::Memo),
        g.is_a(e, NodeKind::Memo),
        c != d && d != e && c != e,
        g.nodes[c as int].sources == seq![a, b],
        g.nodes[d as int].sources == seq![c],
        g.nodes[e as int].sources == seq![d],
        cell == a || cell == b,
    ensures
        g.edge(cell, c),
        !g.edge(cell, d),
        !g.edge(cell, e),
        g.reaches(cell, c),
        g.reaches(cell, d),
        g.reaches(cell, e),
{
    lemma_chain_shape(g, a, b, c, d, e);
    assert(g.nodes[c as int].sources.contains(cell)) by {
        assert(g.nodes[c as int].sources[0] == a);
        assert(g.nodes[c as int].sources[1] == b);
    }
    g.lemma_source_reaches(cell, c);
    g.lemma_reach_step(cell, c, d);
    g.lemma_reach_step(cell, d, e);
    if g.edge(cell, d) {
        assert(g.nodes[d as int].sources.contains(cell));
    }
    if g.edge(cell, e) {
        assert(g.nodes[e as int].sources.contains(cell));
    }
}

/// What a write to either signal of a chain of clean memos leaves: the
/// chain, with its first link due for a run and the two behind it in
/// doubt, each with the value and the run count it had.
proof fn lemma_chain_after_write<T>(
    g: GraphModel<T>,
    cell: usize,
    written: T,
    a: usize,
    b: usize,
    c: usize,
    d: usize,
    e: usize,
)
    requires
        g.wf(),
        g.is_a(a, NodeKind::Signal),
        g.is_a(b, NodeKind::Signal),
        a != b,
        cell == a || cell == b,
        g.is_a(c, NodeKind::Memo),
        g.is_a(d, NodeKind::Memo),
        g.is_a(e, NodeKind::Memo),
        c != d && d != e && c != e,
        g.plan(c) == Pull::Fresh,
        g.plan(d) == Pull::Fresh,
        g.plan(e) == Pull::Fresh,
        g.nodes[c as int].sources == seq![a, b],
        g.nodes[d as int].sources == seq![c],
        g.nodes[e as int].sources == seq![d],
    ensures
        ({
            let marked = g.write(cell, written);
            &&& is_chain(marked, a, b, c, d, e)
            &&& marked.plan(c) == Pull::Stale
            &&& marked.plan(d) == Pull::Unsure
            &&& marked.plan(e) == Pull::Unsure
            &&& marked.nodes[c as int] == g.nodes[c as int].marked(true)
            &&& marked.nodes[d as int] == g.nodes[d as int].marked(false)
            &&& marked.nodes[e as int] == g.nodes[e as int].marked(false)
            &&& g.nodes[c as int].value is Some
            &&& g.nodes[d as int].value is Some
            &&& g.nodes[e as int].value is Some
        }),
{
    let marked = g.write(cell, written);
    g.lemma_write_wf(cell, written);
    lemma_write_frame(g, cell, written);
    lemma_chain_written(g, cell, a, b, c, d, e);
    g.lemma_sourceless_unreachable(cell, a);
    g.lemma_sourceless_unreachable(cell, b);
    assert(marked.nodes[cell as int].kind == NodeKind::Signal && marked.nodes[cell as int].live)
        by {
        let stored = GraphModel {
            nodes: g.nodes.update(
                cell as int,
                NodeModel {
                    value: Some(written),
                    state: ReactiveNodeState::Dirty,
                    ..g.nodes[cell as int]
                },
            ),
            ..g
        };
        stored.lemma_propagated_frame(cell, cell);
    }
    assert(g.nodes[c as int].is_sound());
    assert(g.nodes[d as int].is_sound());
    assert(g.nodes[e as int].is_sound());
}

/// In a chain, nothing downstream leads back up.
proof fn lemma_chain_shape<T>(g: GraphModel<T>, a: usize, b: usize, c: usize, d: usize, e: usize)
    requires
        g.wf(),
        g.is_a(a, NodeKind::Signal),
        g.is_a(b, NodeKind::Signal),
        g.is_a(c, NodeKind::Memo),
        g.is_a(d, NodeKind::Memo),
        g.is_a(e, NodeKind::Memo),
        c != d && d != e && c != e,
        g.nodes[c as int].sources == seq![a, b],
        g.nodes[d as int].sources == seq![c],
        g.nodes[e as int].sources == seq![d],
    ensures
        !g.reaches(c, c),
        !g.reaches(d, c),
        !g.reaches(e, c),
        !g.reaches(d, d),
        !g.reaches(e, d),
        !g.reaches(e, e),
        g.edge(c, d),
        g.edge(d, e),
        g.reaches(c, d),
        g.reaches(c, e),
        g.reaches(d, e),
        !g.edge(c, e),
{
    assert(g.nodes[a as int].sources.len() == 0);
    assert(g.nodes[b as int].sources.len() == 0);
    assert forall|x: usize| !g.reaches(x, c) || x == a || x == b by {
        if g.reaches(x, c) {
            let k = g.lemma_reach_via_source(x, c);
            let s = g.nodes[c as int].sources[k];
            assert(s == a || s == b);
            if s != x {
                g.lemma_sourceless_unreachable(x, s);
            }
        }
    }
    assert forall|x: usize| !g.reaches(x, d) || x == a || x == b || x == c by {
        if g.reaches(x, d) {
            let k = g.lemma_reach_via_source(x, d);
            assert(g.nodes[d as int].sources[k] == c);
        }
    }
    assert forall|x: usize| !g.reaches(x, e) || x == a || x == b || x == c || x == d by {
        if g.reaches(x, e) {
            let k = g.lemma_reach_via_source(x, e);
            assert(g.nodes[e as int].sources[k] == d);
        }
    }
    assert(g.nodes[d as int].sources.contains(c)) by {
        assert(g.nodes[d as int].sources[0] == c);
    }
    assert(g.nodes[e as int].sources.contains(d)) by {
        assert(g.nodes[e as int].sources[0] == d);
    }
    g.lemma_source_reaches(c, d);
    g.lemma_source_reaches(d, e);
    g.lemma_reach_step(c, d, e);
    if g.edge(c, e) {
        assert(g.nodes[e as int].sources.contains(c));
    }
}

// ----- the read of a chain, as the pull makes it ------------------------------

/// The shape of a chain `c = f(a, b)`, `d = g(c)`, `e = h(d)`.
spec fn is_chain<T>(g: GraphModel<T>, a: usize, b: usize, c: usize, d: usize, e: usize) -> bool {
    &&& g.wf()
    &&& g.is_a(a, NodeKind::Signal)
    &&& g.is_a(b, NodeKind::Signal)
    &&& a != b
    &&& g.is_a(c, NodeKind::Memo)
    &&& g.is_a(d, NodeKind::Memo)
    &&& g.is_a(e, NodeKind::Memo)
    &&& c != d && d != e && c != e
    &&& g.nodes[c as int].sources == seq![a, b]
    &&& g.nodes[d as int].sources == seq![c]
    &&& g.nodes[e as int].sources == seq![d]
}

/// Node `id` is in `h` what its run has made of it: clean, off the stack,
/// with the value computed and one run more than in `g`.
spec fn has_run<T>(g: GraphModel<T>, h: GraphModel<T>, id: usize, value: T) -> bool {
    &&& h.nodes[id as int].state == ReactiveNodeState::Clean
    &&& !h.nodes[id as int].running
    &&& !h.nodes[id as int].invalidated
    &&& h.nodes[id as int].value == Some(value)
    &&& h.nodes[id as int].runs == g.nodes[id as int].runs + 1
}

/// Node `id` is in `h` what the push phase has made of it in `g`.
spec fn is_marked<T>(g: GraphModel<T>, h: GraphModel<T>, id: usize, direct: bool) -> bool {
    &&& id < h.nodes.len()
    &&& h.nodes[id as int] == (NodeModel {
        subscribers: h.nodes[id as int].subscribers,
        ..g.nodes[id as int].marked(direct)
    })
}

/// Who the observer is plays no part in recording an edge.
proof fn lemma_observer_apart<T>(
    g: GraphModel<T>,
    observer: Option<AnySubscriber>,
    source: usize,
    reader: usize,
)
    ensures
        g.with_observer(observer).add_edge(source, reader) == g.add_edge(
            source,
            reader,
        ).with_observer(observer),
{
}

/// The pull of the first link of a chain that is due for a run, where its
/// function reads its two sources again and its value comes out changed.
proof fn lemma_pull_first_link<T: PartialEq, R>(
    g: GraphModel<T>,
    table: R,
    requests: Seq<usize>,
    a: usize,
    b: usize,
    c: usize,
    d: usize,
    e: usize,
    depth: nat,
    t: Trace<T, R>,
)
    requires
        is_chain(g, a, b, c, d, e),
        g.plan(c) == Pull::Stale,
        replay_pull(g, table, requests, c, depth, t).fits,
        t.run matches Some(run) ==> (run.node == c ==> run.after == run.before.add_edge(
            a,
            c,
        ).add_edge(b, c) && run.changed),
    ensures
        ({
            let r = replay_pull(g, table, requests, c, depth, t);
            &&& t.asked.len() == 0
            &&& t.run is Some
            &&& t.run.unwrap().node == c
            &&& r.outcome == Ok::<bool, ReactiveError>(true)
            &&& r.table == t.run.unwrap().table_after
            &&& r.graph.observer == g.observer
            &&& is_chain(r.graph, a, b, c, d, e)
            &&& has_run(g, r.graph, c, t.run.unwrap().value)
            &&& is_marked(g, r.graph, d, true)
            &&& is_marked(g, r.graph, e, false)
        }),
{
    let run = t.run.unwrap();
    let begun = g.begin_run(c);
    let handed = begun.with_observer(Some(AnySubscriber(c)));
    assert(run.before == handed);
    lemma_observer_apart(begun, Some(AnySubscriber(c)), a, c);
    lemma_observer_apart(begun.add_edge(a, c), Some(AnySubscriber(c)), b, c);
    let read = begun.add_edge(a, c).add_edge(b, c);
    let left = run.after.with_observer(g.observer);
    assert(left == read);
    lemma_rerun_two(g, a, b, c);
    assert(same_inside(g, read, d) && same_inside(g, read, e));
    assert(same_inside(g, read, a) && same_inside(g, read, b));
    lemma_chain_shape(read, a, b, c, d, e);
    lemma_finish_frame(read, c, run.value, true);
}

/// The pull of the second link of a chain that is in doubt, behind a first
/// link that is due for a run, where each function reads its sources again
/// and both values come out changed.
proof fn lemma_pull_second_link<T: PartialEq, R>(
    g: GraphModel<T>,
    table: R,
    requests: Seq<usize>,
    a: usize,
    b: usize,
    c: usize,
    d: usize,
    e: usize,
    depth: nat,
    t: Trace<T, R>,
)
    requires
        is_chain(g, a, b, c, d, e),
        g.plan(c) == Pull::Stale,
        g.plan(d) == Pull::Unsure,
        depth >= 1,
        replay_pull(g, table, requests, d, depth, t).fits,
        t.asked.len() > 0 ==> (t.asked[0].run matches Some(run) ==> (run.node == c ==> run.after
            == run.before.add_edge(a, c).add_edge(b, c) && run.changed)),
        t.run matches Some(run) ==> (run.node == d ==> run.after == run.before.add_edge(c, d)
            && run.changed),
    ensures
        ({
            let r = replay_pull(g, table, requests, d, depth, t);
            &&& t.asked.len() == 1
            &&& t.asked[0].asked.len() == 0
            &&& t.asked[0].run is Some
            &&& t.asked[0].run.unwrap().node == c
            &&& t.run is Some
            &&& t.run.unwrap().node == d
            &&& r.outcome == Ok::<bool, ReactiveError>(true)
            &&& r.table == t.run.unwrap().table_after
            &&& r.graph.observer == g.observer
            &&& is_chain(r.graph, a, b, c, d, e)
            &&& has_run(g, r.graph, c, t.asked[0].run.unwrap().value)
            &&& has_run(g, r.graph, d, t.run.unwrap().value)
            &&& is_marked(g, r.graph, e, true)
        }),
{
    reveal_with_fuel(replay_poll, 3);
    let asking = g.begin_poll(d);
    g.lemma_poll_wf(d);
    assert(is_chain(asking, a, b, c, d, e));
    assert(asking.plan(c) == Pull::Stale);
    assert(asking.is_pending(d));
    assert(t.asked.len() > 0);
    let first = replay_pull(asking, table, requests, c, (depth - 1) as nat, t.asked[0]);
    assert(first.fits);
    lemma_pull_first_link(asking, table, requests, a, b, c, d, e, (depth - 1) as nat, t.asked[0]);
    let told = first.graph.told(d);
    first.graph.lemma_poll_wf(d);
    let asked = told.end_poll(d);
    told.lemma_poll_wf(d);
    assert(g.nodes[d as int].sources.len() == 1 && g.nodes[d as int].sources[0] == c);
    let p = replay_poll(
        asking,
        table,
        requests,
        d,
        g.nodes[d as int].sources,
        0,
        (depth - 1) as nat,
        t.asked,
    );
    let rest = replay_poll(
        told,
        first.table,
        first.requests,
        d,
        g.nodes[d as int].sources,
        1,
        (depth - 1) as nat,
        t.asked,
    );
    assert(rest.graph == told && rest.error is None);
    assert(p.graph == told && p.error is None && p.table == first.table);
    assert(asked.nodes[d as int].state == ReactiveNodeState::Check);
    assert(asked.nodes[d as int].invalidated);
    assert(!asked.nodes[d as int].running);
    assert(asked.plan(d) == Pull::Stale);
    assert(is_chain(asked, a, b, c, d, e));
    let run = t.run.unwrap();
    let begun = asked.begin_run(d);
    assert(t.run is Some);
    assert(run.before == begun.with_observer(Some(AnySubscriber(d))));
    lemma_observer_apart(begun, Some(AnySubscriber(d)), c, d);
    let read = begun.add_edge(c, d);
    let left = run.after.with_observer(asked.observer);
    assert(left == read);
    lemma_rerun_one(asked, c, d);
    assert(same_inside(asked, read, c) && same_inside(asked, read, e));
    assert(same_inside(asked, read, a) && same_inside(asked, read, b));
    lemma_chain_shape(read, a, b, c, d, e);
    lemma_finish_frame(read, d, run.value, true);
}

/// The pull of the third link of a chain that is in doubt, behind a second
/// link that is in doubt and a first link that is due for a run, where
/// each function reads its sources again and the first two values come
/// out changed.
proof fn lemma_pull_third_link<T: PartialEq, R>(
    g: GraphModel<T>,
    table: R,
    requests: Seq<usize>,
    a: usize,
    b: usize,
    c: usize,
    d: usize,
    e: usize,
    depth: nat,
    t: Trace<T, R>,
)
    requires
        is_chain(g, a, b, c, d, e),
        g.plan(c) == Pull::Stale,
        g.plan(d) == Pull::Unsure,
        g.plan(e) == Pull::Unsure,
        depth >= 2,
        replay_pull(g, table, requests, e, depth, t).fits,
        t.asked.len() > 0 && t.asked[0].asked.len() > 0 ==> (
        t.asked[0].asked[0].run matches Some(run) ==> (run.node == c ==> run.after
            == run.before.add_edge(a, c).add_edge(b, c) && run.changed)),
        t.asked.len() > 0 ==> (t.asked[0].run matches Some(run) ==> (run.node == d ==> run.after
            == run.before.add_edge(c, d) && run.changed)),
        t.run matches Some(run) ==> (run.node == e ==> run.after == run.before.add_edge(d, e)),
    ensures
        ({
            let r = replay_pull(g, table, requests, e, depth, t);
            &&& t.asked.len() == 1
            &&& t.asked[0].asked.len() == 1
            &&& t.asked[0].asked[0].asked.len() == 0
            &&& t.asked[0].asked[0].run is Some
            &&& t.asked[0].asked[0].run.unwrap().node == c
            &&& t.asked[0].run is Some
            &&& t.asked[0].run.unwrap().node == d
            &&& t.run is Some
            &&& t.run.unwrap().node == e
            &&& r.outcome == Ok::<bool, ReactiveError>(t.run.unwrap().changed)
            &&& r.table == t.run.unwrap().table_after
            &&& r.graph.observer == g.observer
            &&& is_chain(r.graph, a, b, c, d, e)
            &&& has_run(g, r.graph, c, t.asked[0].asked[0].run.unwrap().value)
            &&& has_run(g, r.graph, d, t.asked[0].run.unwrap().value)
            &&& has_run(g, r.graph, e, t.run.unwrap().value)
        }),
{
    reveal_with_fuel(replay_poll, 3);
    let asking = g.begin_poll(e);
    g.lemma_poll_wf(e);
    assert(is_chain(asking, a, b, c, d, e));
    assert(asking.plan(c) == Pull::Stale);
    assert(asking.plan(d) == Pull::Unsure);
    assert(asking.is_pending(e));
    assert(t.asked.len() > 0);
    let second = replay_pull(asking, table, requests, d, (depth - 1) as nat, t.asked[0]);
    assert(second.fits);
    lemma_pull_second_link(asking, table, requests, a, b, c, d, e, (depth - 1) as nat, t.asked[0]);
    let told = second.graph.told(e);
    second.graph.lemma_poll_wf(e);
    let asked = told.end_poll(e);
    told.lemma_poll_wf(e);
    assert(g.nodes[e as int].sources.len() == 1 && g.nodes[e as int].sources[0] == d);
    let p = replay_poll(
        asking,
        table,
        requests,
        e,
        g.nodes[e as int].sources,
        0,
        (depth - 1) as nat,
        t.asked,
    );
    let rest = replay_poll(
        told,
        second.table,
        second.requests,
        e,
        g.nodes[e as int].sources,
        1,
        (depth - 1) as nat,
        t.asked,
    );
    assert(rest.graph == told && rest.error is None);
    assert(p.graph == told && p.error is None && p.table == second.table);
    assert(asked.nodes[e as int].state == ReactiveNodeState::Check);
    assert(asked.nodes[e as int].invalidated);
    assert(!asked.nodes[e as int].running);
    assert(asked.plan(e) == Pull::Stale);
    assert(is_chain(asked, a, b, c, d, e));
    let run = t.run.unwrap();
    let begun = asked.begin_run(e);
    assert(t.run is Some);
    assert(run.before == begun.with_observer(Some(AnySubscriber(e))));
    lemma_observer_apart(begun, Some(AnySubscriber(e)), d, e);
    let read = begun.add_edge(d, e);
    let left = run.after.with_observer(asked.observer);
    assert(left == read);
    lemma_rerun_one(asked, d, e);
    assert(same_inside(asked, read, c) && same_inside(asked, read, d));
    assert(same_inside(asked, read, a) && same_inside(asked, read, b));
    lemma_chain_shape(read, a, b, c, d, e);
    lemma_finish_frame(read, e, run.value, run.changed);
}

/// The read of the end of a chain `c = f(a, b)`, `d = g(c)`, `e = h(d)`
/// after a write to `cell`, which is `a` or `b`, as the pull makes it,
/// where each function reads its sources again and does nothing else, and
/// the values of `c` and `d` come out changed.
///
/// Whatever trace fits the pull, it holds three runs and no more: one of
/// `c`, asked by `d`, one of `d`, asked by `e`, and one of `e`. Afterwards
/// each of the three is clean, has run exactly once more than before the
/// write, and holds the value that its run returned; the read returns the
/// value of `e`.
pub proof fn law_read_of_chain_runs_each_link_once<T: PartialEq + Copy, R>(
    g: GraphModel<T>,
    a: usize,
    b: usize,
    c: usize,
    d: usize,
    e: usize,
    cell: usize,
    written: T,
    table: R,
    requests: Seq<usize>,
    depth: nat,
    t: Trace<T, R>,
)
    requires
        g.wf(),
        g.is_a(a, NodeKind::Signal),
        g.is_a(b, NodeKind::Signal),
        a != b,
        cell == a || cell == b,
        g.is_a(c, NodeKind::Memo),
        g.is_a(d, NodeKind::Memo),
        g.is_a(e, NodeKind::Memo),
        c != d && d != e && c != e,
        g.plan(c) == Pull::Fresh,
        g.plan(d) == Pull::Fresh,
        g.plan(e) == Pull::Fresh,
        g.nodes[c as int].sources == seq![a, b],
        g.nodes[d as int].sources == seq![c],
        g.nodes[e as int].sources == seq![d],
        depth >= 2,
        replay_pull(g.write(cell, written), table, requests, e, depth, t).fits,
        forall|run: Run<T, R>| #[trigger]
            t.holds(run) ==> {
                &&& run.node == c ==> run.after == run.before.add_edge(a, c).add_edge(b, c)
                    && run.changed
                &&& run.node == d ==> run.after == run.before.add_edge(c, d) && run.changed
                &&& run.node == e ==> run.after == run.before.add_edge(d, e)
            },
    ensures
        ({
            let r = replay_pull(g.write(cell, written), table, requests, e, depth, t);
            // the runs that were made: one of each link, the first asked by
            // the second, the second by the third
            &&& t.asked.len() == 1 && t.asked[0].asked.len() == 1
            &&& t.asked[0].asked[0].asked.len() == 0
            &&& t.asked[0].asked[0].run matches Some(of_c)
            &&& t.asked[0].run matches Some(of_d)
            &&& t.run matches Some(of_e)
            &&& of_c.node == c && of_d.node == d && of_e.node == e
            &&& forall|run: Run<T, R>| t.holds(run) ==> run == of_c || run == of_d || run == of_e
            // where that leaves the three
            &&& r.outcome == Ok::<bool, ReactiveError>(of_e.changed)
            &&& r.read(e) == Ok::<T, ReactiveError>(of_e.value)
            &&& r.graph.plan(c) == Pull::Fresh
            &&& r.graph.plan(d) == Pull::Fresh
            &&& r.graph.plan(e) == Pull::Fresh
            &&& r.graph.nodes[c as int].value == Some(of_c.value)
            &&& r.graph.nodes[d as int].value == Some(of_d.value)
            &&& r.graph.nodes[e as int].value == Some(of_e.value)
            &&& r.graph.nodes[c as int].runs == g.nodes[c as int].runs + 1
            &&& r.graph.nodes[d as int].runs == g.nodes[d as int].runs + 1
            &&& r.graph.nodes[e as int].runs == g.nodes[e as int].runs + 1
        }),
{
    let marked = g.write(cell, written);
    lemma_chain_after_write(g, cell, written, a, b, c, d, e);
    assert(marked.plan(c) == Pull::Stale);
    assert(marked.plan(d) == Pull::Unsure);
    assert(marked.plan(e) == Pull::Unsure);
    if t.asked.len() > 0 {
        let second = t.asked[0];
        if second.asked.len() > 0 {
            let first = second.asked[0];
            if first.run is Some {
                first.lemma_holds_own(first.run.unwrap());
                second.lemma_holds_asked(0, first.run.unwrap());
                t.lemma_holds_asked(0, first.run.unwrap());
            }
        }
        if second.run is Some {
            second.lemma_holds_own(second.run.unwrap());
            t.lemma_holds_asked(0, second.run.unwrap());
        }
    }
    if t.run is Some {
        t.lemma_holds_own(t.run.unwrap());
    }
    lemma_pull_third_link(marked, table, requests, a, b, c, d, e, depth, t);
    let second = t.asked[0];
    let first = second.asked[0];
    assert forall|run: Run<T, R>| t.holds(run) implies run == first.run.unwrap() || run
        == second.run.unwrap() || run == t.run.unwrap() by {
        if t.run != Some(run) {
            let j = choose|j: int| 0 <= j < t.asked.len() && (#[trigger] t.asked[j]).holds(run);
            assert(t.asked[j] == second);
            if second.run != Some(run) {
                let k = choose|k: int|
                    0 <= k < second.asked.len() && (#[trigger] second.asked[k]).holds(run);
                assert(second.asked[k] == first);
                first.lemma_quiet_rest(run);
            }
        }
    }
}

/// The pull of the second link of a chain that is in doubt, behind a first
/// link that is due for a run, where the function of the first link reads
/// its sources again and its value comes out equal.
proof fn lemma_pull_behind_equal<T: PartialEq + Copy, R>(
    g: GraphModel<T>,
    table: R,
    requests: Seq<usize>,
    a: usize,
    b: usize,
    c: usize,
    d: usize,
    e: usize,
    depth: nat,
    t: Trace<T, R>,
)
    requires
        is_chain(g, a, b, c, d, e),
        g.plan(c) == Pull::Stale,
        g.plan(d) == Pull::Unsure,
        g.nodes[d as int].value is Some,
        depth >= 1,
        replay_pull(g, table, requests, d, depth, t).fits,
        forall|run: Run<T, R>| #[trigger]
            t.holds(run) ==> (run.node == c ==> run.after == run.before.add_edge(a, c).add_edge(
                b,
                c,
            ) && !run.changed),
    ensures
        ({
            let r = replay_pull(g, table, requests, d, depth, t);
            &&& t.asked.len() == 1 && t.asked[0].asked.len() == 0
            &&& t.asked[0].run matches Some(of_c)
            &&& of_c.node == c
            &&& t.run is None
            &&& forall|run: Run<T, R>| t.holds(run) ==> run == of_c
            &&& r.outcome == Ok::<bool, ReactiveError>(false)
            &&& r.read(d) == Ok::<T, ReactiveError>(g.nodes[d as int].value.unwrap())
            &&& r.requests == of_c.requests_after
            &&& r.graph.plan(c) == Pull::Fresh
            &&& r.graph.plan(d) == Pull::Fresh
            &&& r.graph.nodes[c as int].value == Some(of_c.value)
            &&& r.graph.nodes[c as int].runs == g.nodes[c as int].runs + 1
            &&& r.graph.nodes[d as int].value == g.nodes[d as int].value
            &&& r.graph.nodes[d as int].runs == g.nodes[d as int].runs
            &&& r.graph.nodes[e as int].runs == g.nodes[e as int].runs
            &&& r.graph.nodes[e as int].value == g.nodes[e as int].value
            &&& r.graph.nodes[e as int].state == g.nodes[e as int].state
        }),
{
    reveal_with_fuel(replay_poll, 3);
    let marked = g;
    // the round of questions: `c` runs
    let asking = marked.begin_poll(d);
    marked.lemma_poll_wf(d);
    assert(is_chain(asking, a, b, c, d, e));
    assert(asking.plan(c) == Pull::Stale);
    assert(asking.is_pending(d));
    assert(t.asked.len() > 0);
    let first = t.asked[0];
    let pulled = replay_pull(asking, table, requests, c, (depth - 1) as nat, first);
    assert(pulled.fits);
    assert(first.run is Some);
    let run = first.run.unwrap();
    first.lemma_holds_own(run);
    t.lemma_holds_asked(0, run);
    let begun = asking.begin_run(c);
    assert(run.before == begun.with_observer(Some(AnySubscriber(c))));
    lemma_observer_apart(begun, Some(AnySubscriber(c)), a, c);
    lemma_observer_apart(begun.add_edge(a, c), Some(AnySubscriber(c)), b, c);
    let read = begun.add_edge(a, c).add_edge(b, c);
    assert(run.after.with_observer(asking.observer) == read);
    lemma_rerun_two(asking, a, b, c);
    assert(same_inside(asking, read, d) && same_inside(asking, read, e));
    assert(same_inside(asking, read, a) && same_inside(asking, read, b));
    lemma_chain_shape(read, a, b, c, d, e);
    lemma_finish_frame(read, c, run.value, false);
    assert(pulled.outcome == Ok::<bool, ReactiveError>(false));
    // nobody has told `d` of a change: it settles
    assert(marked.nodes[d as int].sources.len() == 1 && marked.nodes[d as int].sources[0] == c);
    let rest = replay_poll(
        pulled.graph,
        pulled.table,
        pulled.requests,
        d,
        marked.nodes[d as int].sources,
        1,
        (depth - 1) as nat,
        t.asked,
    );
    assert(rest.graph == pulled.graph && rest.error is None);
    let asked = pulled.graph.end_poll(d);
    pulled.graph.lemma_poll_wf(d);
    assert(asked.plan(d) == Pull::Unsure);
    asked.lemma_settle_wf(d);
    assert forall|other: Run<T, R>| t.holds(other) implies other == run by {
        if t.run != Some(other) {
            let j = choose|j: int| 0 <= j < t.asked.len() && (#[trigger] t.asked[j]).holds(other);
            assert(t.asked[j] == first);
            first.lemma_quiet_rest(other);
        }
    }
}

/// The read of the second link of a chain after a write to `cell`, which
/// is `a` or `b`, as the pull makes it, where the function of the first
/// link reads its sources again and its value comes out equal to the one
/// before.
///
/// Whatever trace fits the pull, it holds one run and no more: that of
/// `c`, asked by `d`. The second link is not run: it settles as clean
/// with the value and the run count it had, and the read returns that
/// value. The third link is not touched.
pub proof fn law_read_behind_equal_value_runs_nothing_more<T: PartialEq + Copy, R>(
    g: GraphModel<T>,
    a: usize,
    b: usize,
    c: usize,
    d: usize,
    e: usize,
    cell: usize,
    written: T,
    table: R,
    requests: Seq<usize>,
    depth: nat,
    t: Trace<T, R>,
)
    requires
        g.wf(),
        g.is_a(a, NodeKind::Signal),
        g.is_a(b, NodeKind::Signal),
        a != b,
        cell == a || cell == b,
        g.is_a(c, NodeKind::Memo),
        g.is_a(d, NodeKind::Memo),
        g.is_a(e, NodeKind::Memo),
        c != d && d != e && c != e,
        g.plan(c) == Pull::Fresh,
        g.plan(d) == Pull::Fresh,
        g.plan(e) == Pull::Fresh,
        g.nodes[c as int].sources == seq![a, b],
        g.nodes[d as int].sources == seq![c],
        g.nodes[e as int].sources == seq![d],
        depth >= 1,
        replay_pull(g.write(cell, written), table, requests, d, depth, t).fits,
        forall|run: Run<T, R>| #[trigger]
            t.holds(run) ==> (run.node == c ==> run.after == run.before.add_edge(a, c).add_edge(
                b,
                c,
            ) && !run.changed),
    ensures
        ({
            let marked = g.write(cell, written);
            let r = replay_pull(marked, table, requests, d, depth, t);
            &&& t.asked.len() == 1 && t.asked[0].asked.len() == 0
            &&& t.asked[0].run matches Some(of_c)
            &&& of_c.node == c
            &&& t.run is None
            &&& forall|run: Run<T, R>| t.holds(run) ==> run == of_c
            &&& r.outcome == Ok::<bool, ReactiveError>(false)
            &&& r.read(d) == Ok::<T, ReactiveError>(g.nodes[d as int].value.unwrap())
            &&& r.requests == of_c.requests_after
            &&& r.graph.plan(c) == Pull::Fresh
            &&& r.graph.plan(d) == Pull::Fresh
            &&& r.graph.nodes[c as int].value == Some(of_c.value)
            &&& r.graph.nodes[c as int].runs == g.nodes[c as int].runs + 1
            &&& r.graph.nodes[d as int].value == g.nodes[d as int].value
            &&& r.graph.nodes[d as int].runs == g.nodes[d as int].runs
            &&& r.graph.nodes[e as int].runs == g.nodes[e as int].runs
            &&& r.graph.nodes[e as int].value == g.nodes[e as int].value
            &&& r.graph.nodes[e as int].state == marked.nodes[e as int].state
        }),
{
    lemma_chain_after_write(g, cell, written, a, b, c, d, e);
    lemma_pull_behind_equal(g.write(cell, written), table, requests, a, b, c, d, e, depth, t);
}

/// The pull of an effect behind a memo that is due for a run, where the
/// function of the memo reads its one source again.
///
/// Whatever trace fits the pull, it holds one run and no more: that of the
/// memo. The function of the effect is not run. The answer is whether the
/// memo's value has changed: if it has, the effect has been told of a
/// change and the last wake-up request is for the effect; if it has not,
/// the effect has been told nothing and no request has been added to those
/// that the run of the memo has left.
pub proof fn law_effect_pull_goes_by_its_memo<T: PartialEq + Copy, R>(
    g: GraphModel<T>,
    a: usize,
    c: usize,
    f: usize,
    table: R,
    requests: Seq<usize>,
    depth: nat,
    t: Trace<T, R>,
)
    requires
        g.wf(),
        g.is_a(a, NodeKind::Signal),
        g.is_a(c, NodeKind::Memo),
        g.is_a(f, NodeKind::Effect),
        g.nodes[c as int].sources == seq![a],
        g.nodes[f as int].sources == seq![c],
        g.plan(c) == Pull::Stale,
        !g.nodes[f as int].running,
        !g.nodes[f as int].invalidated,
        depth >= 1,
        replay_pull(g, table, requests, f, depth, t).fits,
        forall|run: Run<T, R>| #[trigger]
            t.holds(run) ==> (run.node == c ==> run.after == run.before.add_edge(a, c)),
    ensures
        ({
            let r = replay_pull(g, table, requests, f, depth, t);
            &&& t.asked.len() == 1 && t.asked[0].asked.len() == 0
            &&& t.asked[0].run matches Some(of_c)
            &&& of_c.node == c
            &&& t.run is None
            &&& forall|run: Run<T, R>| t.holds(run) ==> run == of_c
            &&& r.outcome == Ok::<bool, ReactiveError>(of_c.changed)
            &&& r.graph.plan(c) == Pull::Fresh
            &&& r.graph.nodes[c as int].value == Some(of_c.value)
            &&& r.graph.nodes[c as int].runs == g.nodes[c as int].runs + 1
            &&& r.graph.nodes[f as int].runs == g.nodes[f as int].runs
            &&& r.graph.nodes[f as int].value == g.nodes[f as int].value
            &&& !r.graph.nodes[f as int].running
            &&& r.graph.nodes[f as int].invalidated == of_c.changed
            &&& of_c.changed ==> r.requests.len() > 0 && r.requests.last() == f
            &&& !of_c.changed ==> r.requests == of_c.requests_after
        }),
{
    reveal_with_fuel(replay_poll, 3);
    let asking = g.begin_poll(f);
    g.lemma_poll_wf(f);
    assert(asking.is_pending(f));
    assert(asking.plan(c) == Pull::Stale);
    assert(t.asked.len() > 0);
    let first = t.asked[0];
    let pulled = replay_pull(asking, table, requests, c, (depth - 1) as nat, first);
    assert(pulled.fits);
    assert(first.run is Some);
    let run = first.run.unwrap();
    first.lemma_holds_own(run);
    t.lemma_holds_asked(0, run);
    let begun = asking.begin_run(c);
    assert(run.before == begun.with_observer(Some(AnySubscriber(c))));
    lemma_observer_apart(begun, Some(AnySubscriber(c)), a, c);
    let read = begun.add_edge(a, c);
    assert(run.after.with_observer(asking.observer) == read);
    lemma_rerun_one(asking, a, c);
    assert(same_inside(asking, read, f) && same_inside(asking, read, a));
    assert(read.nodes[a as int].sources.len() == 0);
    assert(!read.reaches(c, c)) by {
        if read.reaches(c, c) {
            let k = read.lemma_reach_via_source(c, c);
            assert(read.nodes[c as int].sources[k] == a);
            read.lemma_sourceless_unreachable(c, a);
        }
    }
    assert(read.nodes[f as int].sources.contains(c)) by {
        assert(read.nodes[f as int].sources[0] == c);
    }
    read.lemma_source_reaches(c, f);
    lemma_finish_frame(read, c, run.value, run.changed);
    assert(pulled.outcome == Ok::<bool, ReactiveError>(run.changed));
    assert(pulled.requests =~= run.requests_after + read.finish_list(c, run.changed));
    let next = if run.changed {
        pulled.graph.told(f)
    } else {
        pulled.graph
    };
    let rest = replay_poll(
        next,
        pulled.table,
        pulled.requests,
        f,
        g.nodes[f as int].sources,
        1,
        (depth - 1) as nat,
        t.asked,
    );
    assert(rest.graph == next && rest.error is None);
    pulled.graph.lemma_poll_wf(f);
    if !run.changed {
        assert(read.finish_list(c, false) =~= Seq::<usize>::empty());
        assert(pulled.requests =~= run.requests_after);
    }
    assert forall|other: Run<T, R>| t.holds(other) implies other == run by {
        if t.run != Some(other) {
            let j = choose|j: int| 0 <= j < t.asked.len() && (#[trigger] t.asked[j]).holds(other);
            assert(t.asked[j] == first);
            first.lemma_quiet_rest(other);
        }
    }
}

/// A round of questions ends with the first source that answers
/// "changed": the node is told of the change, and the sources after that
/// one are not asked.
pub proof fn law_round_stops_at_first_change<T: PartialEq, R>(
    g: GraphModel<T>,
    table: R,
    requests: Seq<usize>,
    id: usize,
    sources: Seq<usize>,
    k: nat,
    depth: nat,
    asked: Seq<Trace<T, R>>,
)
    requires
        k < sources.len(),
        g.is_pending(id),
        replay_poll(g, table, requests, id, sources, k, depth, asked).fits,
        asked.len() > k ==> ({
            let r = replay_pull(g, table, requests, sources[k as int], depth, asked[k as int]);
            r.outcome == Ok::<bool, ReactiveError>(true) && !r.graph.is_a(id, NodeKind::Signal)
        }),
    ensures
        asked.len() == k + 1,
        ({
            let r = replay_pull(g, table, requests, sources[k as int], depth, asked[k as int]);
            let p = replay_poll(g, table, requests, id, sources, k, depth, asked);
            &&& p.graph == r.graph.told(id)
            &&& p.table == r.table
            &&& p.requests == r.requests
            &&& p.error is None
            &&& !p.graph.is_pending(id)
        }),
{
    reveal_with_fuel(replay_poll, 2);
}

// ----- an equal value stops the cascade --------------------------------------

/// A run that ends with a value equal to the one before it marks nothing:
/// every other node is as it was. A subscriber that was waiting to hear
/// from its sources is still waiting, and settles as clean without a run.
pub proof fn law_equal_value_stops_cascade<T>(g: GraphModel<T>, memo: usize, value: T, reader: usize)
    requires
        g.wf(),
        g.is_running(memo),
        reader != memo,
    ensures
        ({
            let done = g.finish_run(memo, value, false);
            &&& done.nodes.len() == g.nodes.len()
            &&& forall|j: int|
                0 <= j < g.nodes.len() && j != memo ==> #[trigger] done.nodes[j] == g.nodes[j]
            &&& done.nodes[memo as int].value == Some(value)
            &&& done.nodes[memo as int].state == ReactiveNodeState::Clean
            &&& g.plan(reader) == Pull::Unsure ==> {
                &&& done.plan(reader) == Pull::Unsure
                &&& done.settle(reader).plan(reader) == Pull::Fresh
                &&& done.settle(reader).nodes[reader as int].runs == g.nodes[reader as int].runs
                &&& done.settle(reader).nodes[reader as int].value == g.nodes[reader as int].value
            }
        }),
{
}

/// A run that ends with a changed value tells every direct subscriber, and
/// marks everything downstream; nothing else is touched.
pub proof fn law_changed_value_marks_downstream<T>(
    g: GraphModel<T>,
    memo: usize,
    value: T,
    reader: usize,
)
    requires
        g.wf(),
        g.is_running(memo),
        reader != memo,
        reader < g.nodes.len(),
    ensures
        ({
            let done = g.finish_run(memo, value, true);
            &&& g.edge(memo, reader) ==> done.nodes[reader as int].invalidated
                && done.nodes[reader as int].state != ReactiveNodeState::Clean
            &&& g.reaches(memo, reader) ==> done.nodes[reader as int].state
                != ReactiveNodeState::Clean
            &&& !g.reaches(memo, reader) ==> done.nodes[reader as int] == g.nodes[reader as int]
        }),
{
    let stored = GraphModel {
        nodes: g.nodes.update(
            memo as int,
            NodeModel {
                value: Some(value),
                state: ReactiveNodeState::Clean,
                running: false,
                invalidated: false,
                ..g.nodes[memo as int]
            },
        ),
        ..g
    };
    g.lemma_same_edges_reaches(stored, memo, reader);
    stored.lemma_propagated_frame(memo, reader);
    if g.edge(memo, reader) {
        g.lemma_edge_reaches(memo, reader);
    }
}

// ----- disposal is idempotent ------------------------------------------------

/// Membership in a subtree is a matter of the parent links alone.
proof fn lemma_subtree_same_parents(
    a: Seq<crate::model::OwnerSlot>,
    b: Seq<crate::model::OwnerSlot>,
    root: usize,
    j: usize,
)
    requires
        a.len() == b.len(),
        forall|k: int| 0 <= k < a.len() ==> (#[trigger] a[k]).parent == b[k].parent,
    ensures
        in_subtree(a, root, j) == in_subtree(b, root, j),
    decreases j,
{
    if j < a.len() && j != root {
        match a[j as int].parent {
            Some(p) => {
                if p < j {
                    lemma_subtree_same_parents(a, b, root, p);
                }
            },
            None => {},
        }
    }
}

/// Disposing a slot twice is disposing it once, and a disposed slot is not
/// live: a read through a handle to it finds nothing.
pub proof fn law_dispose_node_idempotent<T>(g: GraphModel<T>, id: usize)
    requires
        g.wf(),
    ensures
        g.dispose_node(id).wf(),
        !g.dispose_node(id).is_live(id),
        g.dispose_node(id).dispose_node(id) == g.dispose_node(id),
{
    g.lemma_dispose_node_wf(id);
}

/// Disposing a scope twice is disposing it once: the second disposal finds
/// the graph as the first one left it and has no cleanup left to hand out.
/// Every slot of the scope, and of the scopes below it, is dead afterwards:
/// a read through a handle to it finds nothing.
pub proof fn law_dispose_owner_idempotent<T>(g: GraphModel<T>, root: usize)
    requires
        g.wf(),
    ensures
        g.dispose_owner(root).wf(),
        g.dispose_owner(root).dispose_owner(root) == g.dispose_owner(root),
        forall|token: usize| !g.dispose_owner(root).due(root, token),
        forall|id: usize| #[trigger] g.owned_below(root)(id) ==> !g.dispose_owner(root).is_live(id),
        forall|j: usize|
            in_subtree(g.owners, root, j) ==> (#[trigger] g.dispose_owner(root).owners[j as int]).disposed,
{
    g.lemma_dispose_owner_wf(root);
    let h = g.dispose_owner(root);
    let again = h.dispose_owner(root);
    assert forall|j: usize| in_subtree(h.owners, root, j) == in_subtree(g.owners, root, j) by {
        lemma_subtree_same_parents(h.owners, g.owners, root, j);
    }
    assert(h.owned_below(root) =~= g.owned_below(root));
    let doomed = g.owned_below(root);
    assert forall|i: int| 0 <= i < h.nodes.len() implies again.nodes[i] == h.nodes[i] by {
        if !doomed(i as usize) {
            lemma_retain_idempotent(g.nodes[i].sources, spared(doomed));
            lemma_retain_idempotent(g.nodes[i].subscribers, spared(doomed));
        } else {
            assert(retain(Seq::<usize>::empty(), spared(doomed)) =~= Seq::<usize>::empty());
        }
    }
    assert(again.nodes =~= h.nodes);
    assert(again.owners =~= h.owners);
    assert(again.cleanups =~= h.cleanups);
    assert forall|j: usize| in_subtree(g.owners, root, j) implies (
    #[trigger] h.owners[j as int]).disposed by {}
}

} // verus!
