//! Handles into the arena, and the scopes that dispose what they name.

use crate::replay::{cleaning, Cleaned, Stand};
use crate::runtime::{Reactions, Runtime};
use vstd::prelude::*;

verus! {

/// A copyable reference to one slot of the arena.
///
/// The handle does not keep the slot alive: once the slot has been
/// disposed, by hand or with its scope, the handle names nothing.
#[derive(Clone, Copy, PartialEq, Eq, Structural, Debug)]
pub struct Stored {
    pub slot: usize,
}

impl Stored {
    /// A handle to slot `slot`.
    pub fn new(slot: usize) -> (stored: Self)
        ensures
            stored.slot == slot,
    {
        Stored { slot }
    }

    /// The slot, if it is still live.
    pub fn get<T>(&self, rt: &Runtime<T>) -> (slot: Option<usize>)
        ensures
            slot == (if rt@.is_live(self.slot) {
                Some(self.slot)
            } else {
                None
            }),
    {
        match rt.state_of(self.slot) {
            Some(_) => Some(self.slot),
            None => None,
        }
    }

    /// Disposes the slot. Doing so again changes nothing.
    pub fn dispose<T>(&self, rt: &mut Runtime<T>)
        ensures
            final(rt).wake_requests() == old(rt).wake_requests(),
            forall|slot: usize| #[trigger]
                final(rt).has_channel(slot) == (old(rt).has_channel(slot) && (final(rt)@.is_live(slot) || !old(rt)@.is_live(self.slot))),
            final(rt)@ == old(rt)@.dispose_node(self.slot),
    {
        let _was_live = rt.dispose_node(self.slot);
    }
}

/// A scope of the disposal tree.
///
/// Whatever is allocated or registered while a scope is current belongs to
/// it and goes when it is disposed.
#[derive(Clone, Copy, PartialEq, Eq, Structural, Debug)]
pub struct Owner {
    pub id: usize,
}

impl Owner {
    /// Opens a scope below the current one.
    pub fn new<T>(rt: &mut Runtime<T>) -> (owner: Self)
        requires
            old(rt)@.owners.len() < usize::MAX,
        ensures
            final(rt).is_silent_since(old(rt)),
            final(rt)@ == old(rt)@.new_owner(),
            owner.id == old(rt)@.owners.len(),
    {
        Owner { id: rt.new_owner() }
    }

    /// Runs `fun` with this scope as the current one, and makes the scope
    /// that was current before current again, whatever `fun` did.
    ///
    /// Should `fun` have left the runtime with fewer scopes than the one
    /// that was current, no scope is current afterwards. A `fun` that
    /// panics leaves this scope current.
    pub fn with<T, U, F: FnOnce(&mut Runtime<T>) -> U>(&self, rt: &mut Runtime<T>, fun: F) -> (value:
        U)
        requires
            forall|r: &mut Runtime<T>| call_requires(fun, (r,)),
        ensures
            final(rt)@.current_owner == (if old(rt)@.current_owner matches Some(o) && o
                >= final(rt)@.owners.len() {
                None
            } else {
                old(rt)@.current_owner
            }),
            exists|during: &mut Runtime<T>|
                {
                    &&& #[trigger] call_ensures(fun, (during,), value)
                    &&& (*during)@ == (if self.id < old(rt)@.owners.len() {
                        old(rt)@.with_current_owner(Some(self.id))
                    } else {
                        old(rt)@
                    })
                    &&& (*during).is_silent_since(old(rt))
                    &&& final(rt)@ == (*final(during))@.with_current_owner(
                        final(rt)@.current_owner,
                    )
                    &&& final(rt).is_silent_since(&*final(during))
                },
    {
        let outer = rt.enter_owner(Some(self.id));
        let value = fun(rt);
        let _inner = rt.enter_owner(outer);
        rt.well_formed();
        if rt.current_owner() != outer {
            let _lost = rt.enter_owner(None);
        }
        value
    }

    /// Whether the scope has been disposed.
    pub fn is_disposed<T>(&self, rt: &Runtime<T>) -> (disposed: bool)
        ensures
            disposed == (self.id < rt@.owners.len() && rt@.owners[self.id as int].disposed),
    {
        rt.is_disposed(self.id)
    }

    /// Registers a cleanup with this scope and returns the token it will be
    /// handed out under. The scope that is current stays current. `None`
    /// where the handle names no scope of this runtime.
    pub fn on_cleanup<T>(&self, rt: &mut Runtime<T>) -> (token: Option<usize>)
        requires
            old(rt)@.cleanups.len() < usize::MAX,
        ensures
            final(rt).is_silent_since(old(rt)),
            self.id < old(rt)@.owners.len() ==> {
                &&& token == Some(old(rt)@.cleanups.len() as usize)
                &&& final(rt)@ == old(rt)@.with_current_owner(
                    Some(self.id),
                ).on_cleanup().with_current_owner(old(rt)@.current_owner)
            },
            self.id >= old(rt)@.owners.len() ==> token is None && final(rt)@ == old(rt)@,
    {
        rt.well_formed();
        if self.id >= rt.owner_count() {
            return None;
        }
        let outer = rt.enter_owner(Some(self.id));
        let token = rt.on_cleanup();
        let _inner = rt.enter_owner(outer);
        token
    }

    /// Disposes the scope and everything below it, and returns the cleanups
    /// that are now to be run, each once, in the order they were
    /// registered. Disposing again changes nothing and returns none.
    pub fn dispose<T>(&self, rt: &mut Runtime<T>) -> (tokens: Vec<usize>)
        ensures
            final(rt).wake_requests() == old(rt).wake_requests(),
            forall|slot: usize| #[trigger]
                final(rt).has_channel(slot) == (old(rt).has_channel(slot) && final(rt)@.is_live(slot)),
            final(rt)@ == old(rt)@.dispose_owner(self.id),
            old(rt)@.is_due_list(self.id, tokens@),
    {
        rt.dispose_owner(self.id)
    }

    /// Disposes the scope and everything below it, then runs its cleanups,
    /// each once, in the order they were registered. Where none is due, no
    /// callback is made. The first cleanup is handed the graph as the
    /// disposal leaves it, each one after it the graph as the one before
    /// left it.
    pub fn cleanup<T, R: Reactions<T>>(&self, rt: &mut Runtime<T>, fns: &mut R)
        ensures
            (forall|token: usize| !old(rt)@.due(self.id, token)) ==> {
                &&& final(rt)@ == old(rt)@.dispose_owner(self.id)
                &&& *final(fns) == *old(fns)
            },
            exists|tokens: Seq<usize>, steps: Seq<Cleaned<T, R>>|
                {
                    &&& old(rt)@.is_due_list(self.id, tokens)
                    &&& #[trigger] cleaning(
                        steps,
                        tokens,
                        (Stand {
                            graph: old(rt)@.dispose_owner(self.id),
                            table: *old(fns),
                            requests: old(rt).wake_requests(),
                        }),
                        (Stand {
                            graph: final(rt)@,
                            table: *final(fns),
                            requests: final(rt).wake_requests(),
                        }),
                    )
                    &&& forall|k: int|
                        0 <= k < steps.len() ==> exists|
                            table: &mut R,
                            during: &mut Runtime<T>,
                            token: usize,
                        |
                            {
                                &&& #[trigger] call_ensures(R::cleanup, (table, during, token), ())
                                &&& token == (#[trigger] steps[k]).token
                                &&& *table == steps[k].table_before && *final(table) == steps[k].table_after
                                &&& (*during)@ == steps[k].before && (*final(during))@ == steps[k].after
                                &&& (*during).wake_requests() == steps[k].requests_before
                                &&& (*final(during)).wake_requests() == steps[k].requests_after
                            }
                },
    {
        rt.dispose_and_clean(fns, self.id);
    }
}

/// A top-level scope together with what was built in it.
pub struct Root<U> {
    pub owner: Owner,
    pub value: U,
}

impl<U> Root<U> {
    /// Opens a scope below the current one and runs `fun` in it, once. The
    /// scope that was current before is current again afterwards.
    pub fn global_scope<T, F: FnOnce(&mut Runtime<T>) -> U>(rt: &mut Runtime<T>, fun: F) -> (root:
        Root<U>)
        requires
            old(rt)@.owners.len() < usize::MAX,
            forall|r: &mut Runtime<T>| call_requires(fun, (r,)),
        ensures
            root.owner.id == old(rt)@.owners.len(),
            final(rt)@.current_owner == (if old(rt)@.current_owner matches Some(o) && o
                >= final(rt)@.owners.len() {
                None
            } else {
                old(rt)@.current_owner
            }),
            exists|during: &mut Runtime<T>, built: U|
                {
                    &&& #[trigger] call_ensures(fun, (during,), built)
                    &&& built == root.value
                    &&& (*during)@ == old(rt)@.new_owner().with_current_owner(
                        Some(root.owner.id),
                    )
                    &&& (*during).is_silent_since(old(rt))
                    &&& final(rt)@ == (*final(during))@.with_current_owner(
                        final(rt)@.current_owner,
                    )
                    &&& final(rt).is_silent_since(&*final(during))
                },
    {
        let owner = Owner::new(rt);
        let value = owner.with(rt, fun);
        Root { owner, value }
    }

    /// Disposes the scope and hands out what was built in it, with the
    /// cleanups that are now to be run.
    pub fn dispose<T>(self, rt: &mut Runtime<T>) -> (out: (U, Vec<usize>))
        ensures
            final(rt).wake_requests() == old(rt).wake_requests(),
            forall|slot: usize| #[trigger]
                final(rt).has_channel(slot) == (old(rt).has_channel(slot) && final(rt)@.is_live(slot)),
            final(rt)@ == old(rt)@.dispose_owner(self.owner.id),
            out.0 == self.value,
            old(rt)@.is_due_list(self.owner.id, out.1@),
    {
        let tokens = self.owner.dispose(rt);
        (self.value, tokens)
    }
}

} // verus!
