//! The pull phase as a function of what the user functions did.
//!
//! A pull may run any number of user functions, each of which may leave
//! the graph as it likes. A [`Trace`] records what each of them was handed
//! and what it left behind; [`replay_pull`] says what the pull makes of
//! that.

use crate::model::{GraphModel, Pull};
use crate::node::{differs, AnySubscriber, NodeKind, ReactiveError};
use vstd::prelude::*;
use vstd::std_specs::cmp::PartialEqSpec;

verus! {

/// One call of a user function: what it was handed, and what it left.
pub struct Run<T, R> {
    /// The memo or effect whose function ran.
    pub node: usize,
    /// The value that the node held before.
    pub previous: Option<T>,
    /// What the function returned.
    pub value: T,
    /// Whether the value was found to differ from the one before.
    pub changed: bool,
    pub table_before: R,
    pub table_after: R,
    /// The graph that the function was handed.
    pub before: GraphModel<T>,
    /// The graph that the function left.
    pub after: GraphModel<T>,
    /// The wake requests on record when the function was called.
    pub requests_before: Seq<usize>,
    /// The wake requests on record when the function returned.
    pub requests_after: Seq<usize>,
}

/// What happened in the pull of one node: the pulls of the sources that
/// were asked, in the order they were asked, and then the node's own run,
/// if it came to one.
pub struct Trace<T, R> {
    pub asked: Seq<Trace<T, R>>,
    pub run: Option<Run<T, R>>,
}

/// Where a replayed pull ends.
pub struct Replayed<T, R> {
    /// Whether the trace fits the pull: each run in it is the run that was
    /// due at that point, on the graph and the table as they stood.
    pub fits: bool,
    pub graph: GraphModel<T>,
    pub table: R,
    /// The wake requests on record.
    pub requests: Seq<usize>,
    pub outcome: Result<bool, ReactiveError>,
}

/// Where a replayed round of questions ends.
pub struct Polled<T, R> {
    pub fits: bool,
    pub graph: GraphModel<T>,
    pub table: R,
    pub requests: Seq<usize>,
    /// The error that cut the round short, if one did.
    pub error: Option<ReactiveError>,
}

impl<T, R> Trace<T, R> {
    /// Nothing ran.
    pub open spec fn is_quiet(self) -> bool {
        self.asked.len() == 0 && self.run is None
    }

    /// `run` is one of the calls that the trace records.
    pub open spec fn holds(self, run: Run<T, R>) -> bool
        decreases self,
    {
        self.run == Some(run) || exists|j: int|
            0 <= j < self.asked.len() && (#[trigger] self.asked[j]).holds(run)
    }
}

impl<T, R> Trace<T, R> {
    /// A trace holds the run of its own node.
    pub proof fn lemma_holds_own(self, run: Run<T, R>)
        requires
            self.run == Some(run),
        ensures
            self.holds(run),
    {
    }

    /// A trace holds what the traces of its sources hold.
    pub proof fn lemma_holds_asked(self, j: int, run: Run<T, R>)
        requires
            0 <= j < self.asked.len(),
            self.asked[j].holds(run),
        ensures
            self.holds(run),
    {
    }

    /// A trace that asked no source holds its own run and no other.
    pub proof fn lemma_quiet_rest(self, run: Run<T, R>)
        requires
            self.asked.len() == 0,
            self.holds(run),
        ensures
            self.run == Some(run),
    {
    }

    /// A trace in which nothing ran holds no run.
    pub proof fn lemma_quiet_holds_nothing(self, run: Run<T, R>)
        requires
            self.is_quiet(),
        ensures
            !self.holds(run),
    {
    }
}

impl<T: Copy, R> Replayed<T, R> {
    /// What a tracked read of memo `id` finds after the pull.
    pub open spec fn read(self, id: usize) -> Result<T, ReactiveError> {
        match self.outcome {
            Err(e) => Err(e),
            Ok(_) => if self.graph.is_a(id, NodeKind::Memo) {
                match self.graph.nodes[id as int].value {
                    Some(v) => Ok(v),
                    None => Err(ReactiveError::Disposed),
                }
            } else {
                Err(ReactiveError::Disposed)
            },
        }
    }

    /// The graph after a tracked read of memo `id` that began with the
    /// pull: the edge to the observer is recorded where the pull succeeded
    /// and the memo is still there.
    pub open spec fn after_read(self, id: usize) -> GraphModel<T> {
        if self.outcome is Ok && self.graph.is_a(id, NodeKind::Memo) {
            self.graph.track(id)
        } else {
            self.graph
        }
    }
}

/// A pull that runs nothing, wakes nobody and leaves the graph as it is.
pub open spec fn replay_rest<T, R>(
    g: GraphModel<T>,
    table: R,
    requests: Seq<usize>,
    t: Trace<T, R>,
    outcome: Result<bool, ReactiveError>,
) -> Replayed<T, R> {
    Replayed { fits: t.is_quiet(), graph: g, table, requests, outcome }
}

/// One run of `id`: the function is handed the graph as `begin_run`
/// leaves it, with `id` as observer, and what it leaves behind is finished
/// by `finish_run`, with the observer put back. Where the value has
/// changed, the effects downstream are asked for a re-run.
pub open spec fn replay_run<T: PartialEq, R>(
    g: GraphModel<T>,
    table: R,
    requests: Seq<usize>,
    id: usize,
    run: Option<Run<T, R>>,
) -> Replayed<T, R> {
    if !g.can_run(id) {
        Replayed {
            fits: run is None,
            graph: g,
            table,
            requests,
            outcome: Err(
                if g.plan(id) == Pull::Busy {
                    ReactiveError::Cycle
                } else {
                    ReactiveError::Disposed
                },
            ),
        }
    } else {
        match run {
            None => Replayed {
                fits: false,
                graph: g,
                table,
                requests,
                outcome: Err(ReactiveError::Disposed),
            },
            Some(r) => {
                let left = r.after.with_observer(g.observer);
                Replayed {
                    fits: {
                        &&& r.node == id
                        &&& r.previous == g.nodes[id as int].value
                        &&& r.table_before == table
                        &&& r.requests_before == requests
                        &&& r.before == g.begin_run(id).with_observer(Some(AnySubscriber(id)))
                        &&& r.changed ==> r.after.is_running(id)
                        &&& T::obeys_eq_spec() && r.after.is_running(id) ==> r.changed == differs(
                            r.after.nodes[id as int].value,
                            r.value,
                        )
                    },
                    graph: left.finish_run(id, r.value, r.changed),
                    table: r.table_after,
                    requests: r.requests_after + left.finish_list(id, r.changed),
                    outcome: if r.after.is_running(id) {
                        Ok(r.changed)
                    } else {
                        Err(ReactiveError::Disposed)
                    },
                }
            },
        }
    }
}

/// What a memo does once its sources have been asked: it runs if one of
/// them has told it of a change, and settles as clean if none has.
pub open spec fn replay_after_round<T: PartialEq, R>(
    g: GraphModel<T>,
    table: R,
    requests: Seq<usize>,
    id: usize,
    run: Option<Run<T, R>>,
) -> Replayed<T, R> {
    let plan = g.plan(id);
    if plan == Pull::Stale {
        replay_run(g, table, requests, id, run)
    } else {
        Replayed {
            fits: run is None,
            graph: if plan == Pull::Unsure {
                g.settle(id)
            } else {
                g
            },
            table,
            requests,
            outcome: if plan == Pull::Absent {
                Err(ReactiveError::Disposed)
            } else if plan == Pull::Busy {
                Err(ReactiveError::Cycle)
            } else {
                Ok(false)
            },
        }
    }
}

/// The pull of `id`.
///
/// - A node that is gone, or on the stack, fails.
/// - A signal answers whether it has been written, and has been seen.
/// - A clean memo answers "unchanged".
/// - A memo that is due for a run runs.
/// - A memo in doubt asks its sources, then runs or settles.
/// - An effect asks its sources and answers whether one of them has told
///   it of a change. If so it is asked for a re-run; it does not run.
pub open spec fn replay_pull<T: PartialEq, R>(
    g: GraphModel<T>,
    table: R,
    requests: Seq<usize>,
    id: usize,
    depth: nat,
    t: Trace<T, R>,
) -> Replayed<T, R>
    decreases depth, 0nat,
{
    let plan = g.plan(id);
    if plan == Pull::Absent {
        replay_rest(g, table, requests, t, Err(ReactiveError::Disposed))
    } else if plan == Pull::Busy {
        replay_rest(g, table, requests, t, Err(ReactiveError::Cycle))
    } else if plan == Pull::Source {
        Replayed {
            fits: t.is_quiet(),
            graph: g.poll_signal(id),
            table,
            requests,
            outcome: Ok(g.is_written(id)),
        }
    } else if g.is_a(id, NodeKind::Effect) || plan == Pull::Unsure {
        if depth == 0 {
            replay_rest(g, table, requests, t, Err(ReactiveError::DepthExceeded))
        } else {
            let p = replay_poll(
                g.begin_poll(id),
                table,
                requests,
                id,
                g.nodes[id as int].sources,
                0,
                (depth - 1) as nat,
                t.asked,
            );
            let asked = p.graph.end_poll(id);
            match p.error {
                Some(e) => Replayed {
                    fits: p.fits && t.run is None,
                    graph: asked,
                    table: p.table,
                    requests: p.requests,
                    outcome: Err(e),
                },
                None => if g.is_a(id, NodeKind::Effect) {
                    let told = asked.is_live(id) && !asked.is_pending(id);
                    Replayed {
                        fits: p.fits && t.run is None,
                        graph: asked,
                        table: p.table,
                        requests: if told {
                            p.requests + seq![id]
                        } else {
                            p.requests
                        },
                        outcome: Ok(told),
                    }
                } else {
                    let r = replay_after_round(asked, p.table, p.requests, id, t.run);
                    Replayed { fits: p.fits && r.fits, ..r }
                },
            }
        }
    } else if plan == Pull::Fresh {
        replay_rest(g, table, requests, t, Ok(false))
    } else {
        let r = replay_run(g, table, requests, id, t.run);
        Replayed { fits: r.fits && t.asked.len() == 0, ..r }
    }
}

/// A round of questions to `sources`, from the `k`-th on: each is pulled
/// in turn for as long as `id` has not been told of a change. A source
/// that answers "changed" tells it; a cycle, or a chain that is too deep,
/// cuts the round short.
pub open spec fn replay_poll<T: PartialEq, R>(
    g: GraphModel<T>,
    table: R,
    requests: Seq<usize>,
    id: usize,
    sources: Seq<usize>,
    k: nat,
    depth: nat,
    asked: Seq<Trace<T, R>>,
) -> Polled<T, R>
    decreases depth, 1 + sources.len() - k,
{
    if k >= sources.len() || !g.is_pending(id) {
        Polled { fits: asked.len() == k, graph: g, table, requests, error: None }
    } else if asked.len() <= k {
        Polled { fits: false, graph: g, table, requests, error: None }
    } else {
        let r = replay_pull(g, table, requests, sources[k as int], depth, asked[k as int]);
        if r.outcome == Err::<bool, ReactiveError>(ReactiveError::Cycle) {
            Polled {
                fits: r.fits && asked.len() == k + 1,
                graph: r.graph,
                table: r.table,
                requests: r.requests,
                error: Some(ReactiveError::Cycle),
            }
        } else if r.outcome == Err::<bool, ReactiveError>(ReactiveError::DepthExceeded) {
            Polled {
                fits: r.fits && asked.len() == k + 1,
                graph: r.graph,
                table: r.table,
                requests: r.requests,
                error: Some(ReactiveError::DepthExceeded),
            }
        } else {
            let next = if r.outcome == Ok::<bool, ReactiveError>(true) {
                r.graph.told(id)
            } else {
                r.graph
            };
            let rest = replay_poll(next, r.table, r.requests, id, sources, k + 1, depth, asked);
            Polled { fits: r.fits && rest.fits, ..rest }
        }
    }
}

/// A round of questions to the recorded sources of `id`, with `id` on the
/// stack for as long as it lasts.
pub open spec fn replay_ask<T: PartialEq, R>(
    g: GraphModel<T>,
    table: R,
    requests: Seq<usize>,
    id: usize,
    depth: nat,
    asked: Seq<Trace<T, R>>,
) -> Polled<T, R> {
    if !g.can_run(id) {
        Polled {
            fits: asked.len() == 0,
            graph: g,
            table,
            requests,
            error: Some(ReactiveError::Cycle),
        }
    } else {
        let p = replay_poll(
            g.begin_poll(id),
            table,
            requests,
            id,
            g.nodes[id as int].sources,
            0,
            depth,
            asked,
        );
        Polled { graph: p.graph.end_poll(id), ..p }
    }
}

/// One call of a cleanup: what it was handed, and what it left.
pub struct Cleaned<T, R> {
    pub token: usize,
    pub table_before: R,
    pub table_after: R,
    pub before: GraphModel<T>,
    pub after: GraphModel<T>,
    /// The wake requests on record when the cleanup was called.
    pub requests_before: Seq<usize>,
    /// The wake requests on record when the cleanup returned.
    pub requests_after: Seq<usize>,
}

/// Where the cleanups stand: the graph, the table of user functions, and
/// the wake requests on record.
pub struct Stand<T, R> {
    pub graph: GraphModel<T>,
    pub table: R,
    pub requests: Seq<usize>,
}

/// Where the `k`-th of `steps` starts from, where the first starts from
/// `start`.
pub open spec fn stand_before<T, R>(
    steps: Seq<Cleaned<T, R>>,
    k: int,
    start: Stand<T, R>,
) -> Stand<T, R> {
    if k <= 0 {
        start
    } else {
        Stand {
            graph: steps[k - 1].after,
            table: steps[k - 1].table_after,
            requests: steps[k - 1].requests_after,
        }
    }
}

/// `steps` are the cleanups for `tokens`, one for each and in that order,
/// each starting where the one before it ended: the first from `start`,
/// the last ending in `end`.
pub open spec fn cleaning<T, R>(
    steps: Seq<Cleaned<T, R>>,
    tokens: Seq<usize>,
    start: Stand<T, R>,
    end: Stand<T, R>,
) -> bool {
    &&& steps.len() == tokens.len()
    &&& forall|k: int|
        0 <= k < steps.len() ==> {
            &&& (#[trigger] steps[k]).token == tokens[k]
            &&& steps[k].before == stand_before(steps, k, start).graph
            &&& steps[k].table_before == stand_before(steps, k, start).table
            &&& steps[k].requests_before == stand_before(steps, k, start).requests
        }
    &&& end == stand_before(steps, steps.len() as int, start)
}

} // verus!
