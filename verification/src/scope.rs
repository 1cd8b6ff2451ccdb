//! Scopes of ownership: creation, cleanup registration and disposal.

use crate::graph::Graph;
use crate::model::{in_subtree, CleanupSlot, GraphModel, OwnerSlot};
use crate::seq_util::{flagged, lemma_push_contains};
use vstd::prelude::*;

verus! {

impl<T> GraphModel<T> {
    /// `list` names the cleanups that disposing `root` hands out, each
    /// once, in the order they were registered.
    pub open spec fn is_due_list(self, root: usize, list: Seq<usize>) -> bool {
        &&& forall|a: int, b: int| 0 <= a < b < list.len() ==> list[a] < list[b]
        &&& forall|token: usize| list.contains(token) <==> self.due(root, token)
    }
}

impl<T> Graph<T> {
    /// Opens a scope below the current one and returns its number.
    pub fn new_owner(&mut self) -> (owner: usize)
        requires
            old(self).wf(),
            old(self)@.owners.len() < usize::MAX,
        ensures
            final(self).wf(),
            final(self)@ == old(self)@.new_owner(),
            owner == old(self)@.owners.len(),
    {
        let owner = self.owners.len();
        self.owners.push(OwnerSlot { parent: self.current_owner, disposed: false });
        proof {
            assert(self@.nodes =~= old(self)@.nodes);
            old(self)@.lemma_new_owner_wf();
        }
        owner
    }

    /// Makes `owner` the current scope and returns the one that was current
    /// before. A number that names no scope is refused: the current scope
    /// stays as it is and is returned.
    pub fn enter_owner(&mut self, owner: Option<usize>) -> (previous: Option<usize>)
        requires
            old(self).wf(),
        ensures
            final(self).wf(),
            previous == old(self)@.current_owner,
            final(self)@ == (if owner matches Some(o) && o >= old(self)@.owners.len() {
                old(self)@
            } else {
                old(self)@.with_current_owner(owner)
            }),
    {
        let previous = self.current_owner;
        let known = match owner {
            Some(o) => o < self.owners.len(),
            None => true,
        };
        if known {
            self.current_owner = owner;
        }
        proof {
            assert(self@.nodes =~= old(self)@.nodes);
        }
        previous
    }

    /// Registers a cleanup with the current scope and returns the token it
    /// will be handed out under. Without a current scope there is nothing to
    /// register with.
    pub fn on_cleanup(&mut self) -> (token: Option<usize>)
        requires
            old(self).wf(),
            old(self)@.cleanups.len() < usize::MAX,
        ensures
            final(self).wf(),
            final(self)@ == old(self)@.on_cleanup(),
            token == (if old(self)@.current_owner is Some {
                Some(old(self)@.cleanups.len() as usize)
            } else {
                None
            }),
    {
        proof {
            assert(self@.nodes =~= old(self)@.nodes);
        }
        match self.current_owner {
            Some(owner) => {
                let token = self.cleanups.len();
                self.cleanups.push(CleanupSlot { owner, pending: true });
                proof {
                    assert(self@.nodes =~= old(self)@.nodes);
                    old(self)@.lemma_on_cleanup_wf();
                }
                Some(token)
            },
            None => None,
        }
    }

    /// Whether `owner` names a scope that has been disposed.
    pub fn is_disposed(&self, owner: usize) -> (disposed: bool)
        ensures
            disposed == (owner < self@.owners.len() && self@.owners[owner as int].disposed),
    {
        owner < self.owners.len() && self.owners[owner].disposed
    }

    /// Which scopes are `root` or lie below it.
    pub fn subtree(&self, root: usize) -> (marks: Vec<bool>)
        requires
            self.wf(),
        ensures
            marks.len() == self@.owners.len(),
            forall|j: usize| j < marks.len() ==> marks[j as int] == in_subtree(self@.owners, root, j),
    {
        let n = self.owners.len();
        let mut marks: Vec<bool> = Vec::new();
        let mut j: usize = 0;
        while j < n
            invariant
                j <= n,
                n == self.owners.len(),
                marks.len() == j,
                forall|i: usize| i < j ==> marks[i as int] == in_subtree(self@.owners, root, i),
            decreases n - j,
        {
            let inside = if j == root {
                true
            } else {
                match self.owners[j].parent {
                    Some(p) => p < j && marks[p],
                    None => false,
                }
            };
            marks.push(inside);
            j += 1;
        }
        marks
    }

    /// Disposes `root` and every scope below it: the scopes are marked,
    /// their slots emptied and cut out of the graph, and their cleanups
    /// handed out, each once, in the order they were registered. A scope
    /// that was disposed before has nothing left to hand out.
    pub fn dispose_owner(&mut self, root: usize) -> (tokens: Vec<usize>)
        requires
            old(self).wf(),
        ensures
            final(self).wf(),
            final(self)@ == old(self)@.dispose_owner(root),
            old(self)@.is_due_list(root, tokens@),
    {
        let ghost before = self@;
        let marks = self.subtree(root);
        // the slots that go
        let n = self.nodes.len();
        let mut dead: Vec<bool> = Vec::new();
        let mut i: usize = 0;
        while i < n
            invariant
                i <= n,
                n == self.nodes.len(),
                self@ == before,
                before.wf(),
                marks.len() == before.owners.len(),
                forall|j: usize|
                    j < marks.len() ==> marks[j as int] == in_subtree(before.owners, root, j),
                dead.len() == i,
                forall|k: usize| k < i ==> dead[k as int] == before.owned_below(root)(k),
            decreases n - i,
        {
            let goes = match self.nodes[i].owner {
                Some(o) => {
                    proof {
                        assert(before.nodes[i as int].owner == Some(o));
                    }
                    marks[o]
                },
                None => false,
            };
            dead.push(goes);
            i += 1;
        }
        proof {
            assert(flagged(dead@) =~= before.owned_below(root));
        }
        self.detach_marked(&dead);
        let ghost detached = self@;
        // the scopes themselves
        let m = self.owners.len();
        let mut j: usize = 0;
        while j < m
            invariant
                j <= m,
                m == before.owners.len(),
                self.owners.len() == m,
                marks.len() == m,
                forall|i: usize|
                    i < marks.len() ==> marks[i as int] == in_subtree(before.owners, root, i),
                self@.nodes == detached.nodes,
                self@.observer == detached.observer,
                self@.current_owner == detached.current_owner,
                self@.cleanups == detached.cleanups,
                forall|i: int|
                    0 <= i < j ==> #[trigger] self.owners[i] == (if in_subtree(
                        before.owners,
                        root,
                        i as usize,
                    ) {
                        OwnerSlot { disposed: true, ..before.owners[i] }
                    } else {
                        before.owners[i]
                    }),
                forall|i: int| j <= i < m ==> #[trigger] self.owners[i] == before.owners[i],
            decreases m - j,
        {
            if marks[j] {
                let slot = self.owners[j];
                self.owners.set(j, OwnerSlot { parent: slot.parent, disposed: true });
            }
            proof {
                assert(self@.nodes =~= detached.nodes);
            }
            j += 1;
        }
        // the cleanups that are due
        let c = self.cleanups.len();
        let mut tokens: Vec<usize> = Vec::new();
        let mut t: usize = 0;
        while t < c
            invariant
                t <= c,
                c == before.cleanups.len(),
                self.cleanups.len() == c,
                before.wf(),
                marks.len() == before.owners.len(),
                forall|i: usize|
                    i < marks.len() ==> marks[i as int] == in_subtree(before.owners, root, i),
                self@.nodes == detached.nodes,
                self@.observer == detached.observer,
                self@.current_owner == detached.current_owner,
                self@.owners == before.dispose_owner(root).owners,
                forall|i: int|
                    0 <= i < t ==> #[trigger] self.cleanups[i] == (if in_subtree(
                        before.owners,
                        root,
                        before.cleanups[i].owner,
                    ) {
                        CleanupSlot { pending: false, ..before.cleanups[i] }
                    } else {
                        before.cleanups[i]
                    }),
                forall|i: int| t <= i < c ==> #[trigger] self.cleanups[i] == before.cleanups[i],
                forall|a: int, b: int| 0 <= a < b < tokens.len() ==> tokens[a] < tokens[b],
                forall|a: int| 0 <= a < tokens.len() ==> (#[trigger] tokens[a]) < t,
                forall|x: usize| tokens@.contains(x) <==> (x < t && before.due(root, x)),
            decreases c - t,
        {
            let slot = self.cleanups[t];
            let ghost tokens_mid = tokens@;
            proof {
                assert(slot == before.cleanups[t as int]);
                assert(slot.owner < before.owners.len());
            }
            let inside = marks[slot.owner];
            if inside {
                if slot.pending {
                    tokens.push(t);
                }
                self.cleanups.set(t, CleanupSlot { owner: slot.owner, pending: false });
            }
            proof {
                assert(self@.nodes =~= detached.nodes);
                assert forall|x: usize| tokens@.contains(x) <==> (x < t + 1 && before.due(
                    root,
                    x,
                )) by {
                    assert(tokens_mid.contains(x) <==> (x < t && before.due(root, x)));
                    if inside && slot.pending {
                        assert(tokens@ == tokens_mid.push(t));
                        lemma_push_contains(tokens_mid, t, x);
                    } else {
                        assert(tokens@ == tokens_mid);
                    }
                }
            }
            t += 1;
        }
        proof {
            let goal = before.dispose_owner(root);
            assert(self@.cleanups =~= goal.cleanups);
            assert(self@.nodes =~= goal.nodes);
            before.lemma_dispose_owner_wf(root);
        }
        tokens
    }
}

} // verus!
