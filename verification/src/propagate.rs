//! The push phase: marking everything downstream of a change.

use crate::graph::Graph;
use crate::model::GraphModel;
use crate::node::{NodeKind, NodeModel, ReactiveNodeState};
use crate::seq_util::{all_clear, count_set, lemma_count_set_bound, lemma_count_set_update};
use vstd::prelude::*;

verus! {

/// `x` is where the walk starts, or has been reached by it.
pub open spec fn met(from: usize, seen: Seq<bool>, x: usize) -> bool {
    x == from || (x < seen.len() && seen[x as int])
}

impl<T> GraphModel<T> {
    /// One more edge extends what is reachable.
    pub proof fn lemma_reach_step(self, from: usize, x: usize, y: usize)
        requires
            x == from || self.reaches(from, x),
            self.edge(x, y),
        ensures
            self.reaches(from, y),
    {
        if x == from {
            let p = seq![from, y];
            assert(self.is_path(p)) by {
                assert forall|k: int| 0 <= k < p.len() - 1 implies #[trigger] self.hop(p, k) by {
                    assert(p[k] == from && p[k + 1] == y);
                }
            }
            assert(p[0] == from && p.last() == y);
        } else {
            let p = choose|p: Seq<usize>| #[trigger] self.is_path(p) && p[0] == from && p.last() == x;
            let q = p.push(y);
            assert(self.is_path(q)) by {
                assert forall|k: int| 0 <= k < q.len() - 1 implies #[trigger] self.hop(q, k) by {
                    if k < p.len() - 1 {
                        assert(self.hop(p, k));
                        assert(q[k] == p[k] && q[k + 1] == p[k + 1]);
                    } else {
                        assert(q[k] == x && q[k + 1] == y);
                    }
                }
            }
            assert(q[0] == from && q.last() == y);
        }
    }

    /// Reachability is a matter of the subscriber lists alone.
    pub proof fn lemma_same_edges_reaches(self, other: GraphModel<T>, from: usize, to: usize)
        requires
            other.nodes.len() == self.nodes.len(),
            forall|i: int|
                0 <= i < self.nodes.len() ==> (#[trigger] other.nodes[i]).subscribers
                    == self.nodes[i].subscribers,
        ensures
            other.reaches(from, to) == self.reaches(from, to),
    {
        if self.reaches(from, to) {
            let p = choose|p: Seq<usize>| #[trigger] self.is_path(p) && p[0] == from && p.last() == to;
            assert(other.is_path(p)) by {
                assert forall|k: int| 0 <= k < p.len() - 1 implies #[trigger] other.hop(p, k) by {
                    assert(self.hop(p, k));
                    assert(other.nodes[p[k] as int].subscribers == self.nodes[p[k] as int].subscribers);
                }
            }
        }
        if other.reaches(from, to) {
            let p = choose|p: Seq<usize>| #[trigger] other.is_path(p) && p[0] == from && p.last() == to;
            assert(self.is_path(p)) by {
                assert forall|k: int| 0 <= k < p.len() - 1 implies #[trigger] self.hop(p, k) by {
                    assert(other.hop(p, k));
                    assert(other.nodes[p[k] as int].subscribers == self.nodes[p[k] as int].subscribers);
                }
            }
        }
    }

    /// A direct subscriber is reachable.
    pub proof fn lemma_edge_reaches(self, from: usize, to: usize)
        requires
            self.edge(from, to),
        ensures
            self.reaches(from, to),
    {
        self.lemma_reach_step(from, from, to);
    }

    /// What is reachable lies inside the arena.
    pub proof fn lemma_reaches_in_range(self, from: usize, to: usize)
        requires
            self.wf(),
            self.reaches(from, to),
        ensures
            from < self.nodes.len(),
            to < self.nodes.len(),
            self.nodes[to as int].sources.len() > 0,
    {
        let p = choose|p: Seq<usize>| #[trigger] self.is_path(p) && p[0] == from && p.last() == to;
        assert(self.hop(p, 0));
        let last = p.len() - 2;
        assert(self.hop(p, last));
        let x = p[last];
        let subs = self.nodes[x as int].subscribers;
        let k = choose|k: int| 0 <= k < subs.len() && subs[k] == to;
        assert(subs[k] < self.nodes.len());
        assert(self.nodes[to as int].sources.contains(x));
    }

    /// A set of nodes that holds the direct subscribers of `from` and is
    /// closed under subscriber edges holds every node along a path.
    proof fn lemma_path_met(self, from: usize, seen: Seq<bool>, p: Seq<usize>, k: int)
        requires
            self.wf(),
            seen.len() == self.nodes.len(),
            self.is_path(p),
            p[0] == from,
            0 <= k < p.len(),
            forall|x: usize, y: usize|
                met(from, seen, x) && #[trigger] self.edge(x, y) ==> seen[y as int],
        ensures
            met(from, seen, p[k]),
            k >= 1 ==> seen[p[k] as int],
        decreases k,
    {
        if k > 0 {
            self.lemma_path_met(from, seen, p, k - 1);
            assert(self.hop(p, k - 1));
            let x = p[k - 1];
            let y = p[k];
            assert(self.edge(x, y));
            let subs = self.nodes[x as int].subscribers;
            let m = choose|m: int| 0 <= m < subs.len() && subs[m] == y;
            assert(subs[m] < self.nodes.len());
        }
    }
}

/// Two ascending lists with the same elements are the same list.
pub proof fn lemma_ascending_unique(a: Seq<usize>, b: Seq<usize>)
    requires
        forall|i: int, j: int| 0 <= i < j < a.len() ==> a[i] < a[j],
        forall|i: int, j: int| 0 <= i < j < b.len() ==> b[i] < b[j],
        forall|x: usize| a.contains(x) <==> b.contains(x),
    ensures
        a == b,
    decreases a.len(),
{
    if a.len() == 0 {
        if b.len() > 0 {
            assert(b.contains(b[0]));
        }
        assert(a =~= b);
    } else {
        let top = a.last();
        assert(a.contains(top));
        assert(b.contains(top));
        let at = choose|k: int| 0 <= k < b.len() && b[k] == top;
        assert(b.contains(b.last()));
        let back = choose|k: int| 0 <= k < a.len() && a[k] == b.last();
        assert(b.last() == top) by {
            if at < b.len() - 1 {
                assert(b[at] < b[b.len() - 1]);
                if back < a.len() - 1 {
                    assert(a[back] < a[a.len() - 1]);
                }
            }
        }
        let a0 = a.drop_last();
        let b0 = b.drop_last();
        assert forall|x: usize| a0.contains(x) <==> b0.contains(x) by {
            if a0.contains(x) {
                let k = choose|k: int| 0 <= k < a0.len() && a0[k] == x;
                assert(a[k] == x && a[k] < a[a.len() - 1]);
                assert(a.contains(x));
                let m = choose|m: int| 0 <= m < b.len() && b[m] == x;
                assert(m < b.len() - 1);
                assert(b0[m] == x);
            }
            if b0.contains(x) {
                let k = choose|k: int| 0 <= k < b0.len() && b0[k] == x;
                assert(b[k] == x && b[k] < b[b.len() - 1]);
                assert(b.contains(x));
                let m = choose|m: int| 0 <= m < a.len() && a[m] == x;
                assert(m < a.len() - 1);
                assert(a0[m] == x);
            }
        }
        assert forall|i: int, j: int| 0 <= i < j < a0.len() implies a0[i] < a0[j] by {
            assert(a[i] < a[j]);
        }
        assert forall|i: int, j: int| 0 <= i < j < b0.len() implies b0[i] < b0[j] by {
            assert(b[i] < b[j]);
        }
        lemma_ascending_unique(a0, b0);
        assert(a =~= a0.push(top));
        assert(b =~= b0.push(top));
    }
}

impl<T> GraphModel<T> {
    /// There is only one list of the effects to wake.
    pub proof fn lemma_wake_list(self, from: usize, list: Seq<usize>)
        requires
            self.is_wake_list(from, list),
        ensures
            list == self.wake_list(from),
    {
        let chosen = self.wake_list(from);
        assert(self.is_wake_list(from, chosen));
        assert forall|x: usize| list.contains(x) <==> chosen.contains(x) by {
            assert(list.contains(x) <==> self.wakes(from, x));
            assert(chosen.contains(x) <==> self.wakes(from, x));
        }
        lemma_ascending_unique(list, chosen);
    }
}

impl<T> Graph<T> {
    /// Which nodes lie downstream of `from`: its subscribers, their
    /// subscribers, and so on.
    pub fn downstream(&self, from: usize) -> (seen: Vec<bool>)
        requires
            self.wf(),
        ensures
            seen.len() == self@.nodes.len(),
            forall|j: usize| j < seen.len() ==> seen[j as int] == self@.reaches(from, j),
    {
        let n = self.nodes.len();
        let mut seen = all_clear(n);
        if from >= n {
            proof {
                assert forall|j: usize| j < seen.len() implies seen[j as int] == self@.reaches(
                    from,
                    j,
                ) by {
                    if self@.reaches(from, j) {
                        self@.lemma_reaches_in_range(from, j);
                    }
                }
            }
            return seen;
        }
        let mut stack: Vec<usize> = Vec::new();
        stack.push(from);
        let ghost mut done: Set<usize> = Set::empty();
        proof {
            assert(stack@[0] == from);
            lemma_count_set_bound(seen@);
        }
        while stack.len() > 0
            invariant
                self.wf(),
                n == self@.nodes.len(),
                from < n,
                seen.len() == n,
                forall|j: usize| j < n && seen[j as int] ==> self@.reaches(from, j),
                forall|k: int| 0 <= k < stack.len() ==> met(from, seen@, #[trigger] stack[k]),
                forall|k: int| 0 <= k < stack.len() ==> (#[trigger] stack[k]) < n,
                forall|x: usize|
                    #[trigger] met(from, seen@, x) ==> stack@.contains(x) || done.contains(x),
                forall|x: usize, y: usize|
                    done.contains(x) && #[trigger] self@.edge(x, y) ==> seen[y as int],
                count_set(seen@) <= n,
            decreases (n - count_set(seen@)) + stack.len(),
        {
            let ghost stack_before = stack@;
            let x = stack.pop().unwrap();
            proof {
                assert(x == stack_before[stack_before.len() - 1]);
                assert(met(from, seen@, x));
                assert forall|k: int| 0 <= k < stack.len() implies met(
                    from,
                    seen@,
                    #[trigger] stack[k],
                ) by {
                    assert(stack[k] == stack_before[k]);
                }
                assert forall|z: usize| #[trigger] met(from, seen@, z) implies z == x
                    || stack@.contains(z) || done.contains(z) by {
                    if stack_before.contains(z) {
                        let m = choose|m: int| 0 <= m < stack_before.len() && stack_before[m] == z;
                        if m < stack.len() {
                            assert(stack@[m] == z);
                        }
                    }
                }
            }
            let ghost fuel = (n - count_set(seen@)) + stack.len();
            let mut k: usize = 0;
            while k < self.nodes[x as usize].subscribers.len()
                invariant
                    self.wf(),
                    n == self@.nodes.len(),
                    from < n,
                    x < n,
                    seen.len() == n,
                    k <= self.nodes[x as int].subscribers.len(),
                    met(from, seen@, x),
                    forall|j: usize| j < n && seen[j as int] ==> self@.reaches(from, j),
                    forall|m: int| 0 <= m < stack.len() ==> met(from, seen@, #[trigger] stack[m]),
                    forall|m: int| 0 <= m < stack.len() ==> (#[trigger] stack[m]) < n,
                    forall|z: usize|
                        #[trigger] met(from, seen@, z) ==> z == x || stack@.contains(z)
                            || done.contains(z),
                    forall|z: usize, y: usize|
                        done.contains(z) && #[trigger] self@.edge(z, y) ==> seen[y as int],
                    forall|m: int|
                        0 <= m < k ==> seen[(#[trigger] self.nodes[x as int].subscribers[m]) as int],
                    count_set(seen@) <= n,
                    (n - count_set(seen@)) + stack.len() == fuel,
                decreases self.nodes[x as int].subscribers.len() - k,
            {
                let y = self.nodes[x].subscribers[k];
                proof {
                    assert(self@.nodes[x as int].subscribers[k as int] < n);
                    assert(self@.nodes[x as int].subscribers.contains(y));
                    assert(self@.edge(x, y));
                    if x != from {
                        assert(self@.reaches(from, x));
                    }
                    self@.lemma_reach_step(from, x, y);
                }
                if !seen[y] {
                    let ghost seen_before = seen@;
                    let ghost stack_mid = stack@;
                    seen.set(y, true);
                    stack.push(y);
                    proof {
                        lemma_count_set_update(seen_before, y as int);
                        lemma_count_set_bound(seen@);
                        assert forall|m: int| 0 <= m < stack.len() implies met(
                            from,
                            seen@,
                            #[trigger] stack[m],
                        ) by {
                            if m < stack_mid.len() {
                                assert(stack[m] == stack_mid[m]);
                                assert(met(from, seen_before, stack_mid[m]));
                            }
                        }
                        assert forall|z: usize| #[trigger] met(from, seen@, z) implies z == x
                            || stack@.contains(z) || done.contains(z) by {
                            if z == y {
                                assert(stack@[stack_mid.len() as int] == y);
                            } else {
                                assert(met(from, seen_before, z));
                                if stack_mid.contains(z) {
                                    let m = choose|m: int|
                                        0 <= m < stack_mid.len() && stack_mid[m] == z;
                                    assert(stack@[m] == z);
                                }
                            }
                        }
                    }
                }
                k += 1;
            }
            proof {
                let ghost finished = done.insert(x);
                assert forall|z: usize, y: usize|
                    finished.contains(z) && #[trigger] self@.edge(z, y) implies seen[y as int] by {
                    if z == x {
                        let subs = self@.nodes[x as int].subscribers;
                        let m = choose|m: int| 0 <= m < subs.len() && subs[m] == y;
                        assert(seen[self.nodes[x as int].subscribers[m] as int]);
                    }
                }
                done = finished;
            }
        }
        proof {
            assert forall|j: usize| j < seen.len() implies seen[j as int] == self@.reaches(
                from,
                j,
            ) by {
                if self@.reaches(from, j) {
                    let p = choose|p: Seq<usize>|
                        #[trigger] self@.is_path(p) && p[0] == from && p.last() == j;
                    assert forall|x: usize, y: usize|
                        met(from, seen@, x) && #[trigger] self@.edge(x, y) implies seen[y as int] by {
                        assert(!stack@.contains(x));
                        assert(done.contains(x));
                    }
                    self@.lemma_path_met(from, seen@, p, p.len() - 1);
                }
            }
        }
        seen
    }

    /// The push phase from `from`: every node downstream drops from `Clean`
    /// to `Check`, and every direct subscriber is told that a source of its
    /// own has changed. Returns, in ascending order, the effects that have
    /// to be woken.
    pub fn propagate(&mut self, from: usize) -> (woken: Vec<usize>)
        requires
            old(self).wf(),
        ensures
            final(self).wf(),
            final(self)@ == old(self)@.propagated(from),
            old(self)@.is_wake_list(from, woken@),
            woken@ == old(self)@.wake_list(from),
    {
        let seen = self.downstream(from);
        let ghost before = self@;
        let n = self.nodes.len();
        let mut woken: Vec<usize> = Vec::new();
        let mut j: usize = 0;
        while j < n
            invariant
                j <= n,
                n == before.nodes.len(),
                before == old(self)@,
                before.wf(),
                seen.len() == n,
                forall|i: usize| i < n ==> seen[i as int] == before.reaches(from, i),
                self@.nodes.len() == n,
                self@.observer == before.observer,
                self@.owners == before.owners,
                self@.current_owner == before.current_owner,
                self@.cleanups == before.cleanups,
                forall|i: int|
                    0 <= i < j ==> #[trigger] self@.nodes[i] == (if before.reaches(from, i as usize) {
                        before.nodes[i].marked(false)
                    } else {
                        before.nodes[i]
                    }),
                forall|i: int| j <= i < n ==> #[trigger] self@.nodes[i] == before.nodes[i],
                forall|a: int, b: int| 0 <= a < b < woken.len() ==> woken[a] < woken[b],
                forall|a: int| 0 <= a < woken.len() ==> (#[trigger] woken[a]) < j,
                forall|x: usize| woken@.contains(x) <==> (x < j && before.wakes(from, x)),
            decreases n - j,
        {
            let ghost mid = self@;
            let ghost woken_mid = woken@;
            let wake = seen[j] && self.nodes[j].live && self.nodes[j].kind == NodeKind::Effect;
            proof {
                assert(mid.nodes[j as int] == before.nodes[j as int]);
                assert(wake == before.wakes(from, j));
            }
            if seen[j] && self.nodes[j].state == ReactiveNodeState::Clean {
                self.nodes[j].state = ReactiveNodeState::Check;
            }
            if wake {
                woken.push(j);
            }
            proof {
                assert forall|i: int| 0 <= i < j + 1 implies #[trigger] self@.nodes[i] == (
                if before.reaches(from, i as usize) {
                    before.nodes[i].marked(false)
                } else {
                    before.nodes[i]
                }) by {
                    if i < j {
                        assert(self@.nodes[i] == mid.nodes[i]);
                    } else {
                        assert(mid.nodes[i] == before.nodes[i]);
                    }
                }
                assert forall|i: int| j + 1 <= i < n implies #[trigger] self@.nodes[i]
                    == before.nodes[i] by {
                    assert(self@.nodes[i] == mid.nodes[i]);
                }
                assert forall|x: usize| woken@.contains(x) <==> (x < j + 1 && before.wakes(
                    from,
                    x,
                )) by {
                    assert(woken_mid.contains(x) <==> (x < j && before.wakes(from, x)));
                    if wake {
                        assert(woken@ == woken_mid.push(j));
                        crate::seq_util::lemma_push_contains(woken_mid, j, x);
                    } else {
                        assert(woken@ == woken_mid);
                    }
                }
            }
            j += 1;
        }
        let ghost swept = self@;
        if from < n {
            let mut k: usize = 0;
            while k < self.nodes[from].subscribers.len()
                invariant
                    from < n,
                    n == before.nodes.len(),
                    before.wf(),
                    self@.nodes.len() == n,
                    swept.nodes.len() == n,
                    self@.observer == before.observer,
                    self@.owners == before.owners,
                    self@.current_owner == before.current_owner,
                    self@.cleanups == before.cleanups,
                    self@.nodes[from as int].subscribers == before.nodes[from as int].subscribers,
                    k <= before.nodes[from as int].subscribers.len(),
                    forall|i: int|
                        0 <= i < n ==> #[trigger] self@.nodes[i] == (NodeModel {
                            invalidated: swept.nodes[i].invalidated
                                || before.nodes[from as int].subscribers.take(k as int).contains(
                                i as usize,
                            ),
                            ..swept.nodes[i]
                        }),
                    forall|i: int|
                        0 <= i < n ==> (#[trigger] swept.nodes[i]).subscribers
                            == before.nodes[i].subscribers,
                decreases before.nodes[from as int].subscribers.len() - k,
            {
                let y = self.nodes[from].subscribers[k];
                let ghost mid = self@;
                proof {
                    assert(before.nodes[from as int].subscribers[k as int] < n);
                }
                self.nodes[y].invalidated = true;
                proof {
                    let subs = before.nodes[from as int].subscribers;
                    assert(subs.take(k + 1) =~= subs.take(k as int).push(y));
                    assert forall|i: int| 0 <= i < n implies #[trigger] self@.nodes[i]
                        == (NodeModel {
                        invalidated: swept.nodes[i].invalidated || subs.take(k + 1).contains(
                            i as usize,
                        ),
                        ..swept.nodes[i]
                    }) by {
                        crate::seq_util::lemma_push_contains(subs.take(k as int), y, i as usize);
                        assert(mid.nodes[i] == (NodeModel {
                            invalidated: swept.nodes[i].invalidated || subs.take(
                                k as int,
                            ).contains(i as usize),
                            ..swept.nodes[i]
                        }));
                    }
                }
                k += 1;
            }
        }
        proof {
            let goal = before.propagated(from);
            assert forall|i: int| 0 <= i < n implies self@.nodes[i] == goal.nodes[i] by {
                let direct = before.edge(from, i as usize);
                if direct {
                    before.lemma_edge_reaches(from, i as usize);
                }
                if from < n {
                    let subs = before.nodes[from as int].subscribers;
                    assert(subs.take(subs.len() as int) =~= subs);
                } else {
                    assert(self@.nodes[i] == swept.nodes[i]);
                }
            }
            assert(self@.nodes =~= goal.nodes);
            before.lemma_propagated_wf(from);
            before.lemma_wake_list(from, woken@);
        }
        woken
    }
}

} // verus!
