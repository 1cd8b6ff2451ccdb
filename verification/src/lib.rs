//! A fine-grained reactive runtime: signals, memos and effects over an
//! arena-backed dependency graph, with scoped ownership and disposal.
//!
//! A [`Runtime`] holds the graph. [`Signal`]s are cells that can be
//! written; a [`Memo`] caches what a function makes of the nodes it reads;
//! an [`Effect`] is run again whenever something it has read may have
//! changed. A write only marks what is downstream of it; values are
//! recomputed when they are read, and only where a source has in fact
//! changed.
//!
//! The functions of memos and effects are not kept in the runtime. They
//! are the caller's, behind the [`Reactions`] trait, and are handed to
//! every call that may have to run one of them.
//!
//! - [`model`] states what the graph is and what each step does to it,
//!   [`wellformed`] that every step keeps it well formed, and [`laws`] what
//!   follows for memos, cascades and disposal.
//! - [`graph`], [`propagate`], [`pull`] and [`scope`] are the executable
//!   steps, each proved against the model.
//! - [`runtime`] puts the steps together and calls back into user code.
//! - [`replay`] states what a read or an update does as a whole, user
//!   functions included: the runs that were made, and the graph that the
//!   steps of the model give with them.
//! - [`signal`], [`memo`], [`effect`] and [`arena`] are the handles.
//! - [`notify`] is the channel on which effects are woken.
//! - [`view`] holds static markup.

pub mod arena;
pub mod effect;
pub mod graph;
pub mod laws;
pub mod memo;
pub mod model;
pub mod node;
pub mod notify;
pub mod observer;
pub mod prelude;
pub mod propagate;
pub mod pull;
pub mod replay;
pub mod runtime;
pub mod scope;
pub mod seq_util;
pub mod signal;
pub mod view;
pub mod wellformed;

pub use crate::arena::{Owner, Root, Stored};
pub use crate::effect::Effect;
pub use crate::memo::Memo;
pub use crate::node::{AnySource, AnySubscriber, NodeKind, ReactiveError, ReactiveNodeState};
pub use crate::notify::{EffectNotifier, NotificationSender};
pub use crate::observer::Observer;
pub use crate::runtime::{Reactions, Runtime};
pub use crate::signal::read::{ArcReadSignal, ReadSignal};
pub use crate::signal::{signal, ArcRwSignal, ArcWriteSignal, Signal, WriteSignal};

use vstd::prelude::*;

verus! {

/// Runs `fun` with no observer, so that nothing it reads is tracked, and
/// puts the observer back afterwards, whatever `fun` did.
///
/// `fun` is called once, on the runtime as it was found but for the
/// observer; what it returns is returned, and what it leaves behind is
/// left behind but for the observer. A `fun` that panics takes the
/// observer with it: nothing is put back then.
pub fn untrack<T, U, F: FnOnce(&mut Runtime<T>) -> U>(rt: &mut Runtime<T>, fun: F) -> (value: U)
    requires
        forall|r: &mut Runtime<T>| call_requires(fun, (r,)),
    ensures
        final(rt)@.observer == old(rt)@.observer,
        exists|during: &mut Runtime<T>|
            {
                &&& #[trigger] call_ensures(fun, (during,), value)
                &&& (*during)@ == old(rt)@.with_observer(None)
                &&& (*during).is_silent_since(old(rt))
                &&& final(rt)@ == (*final(during))@.with_observer(old(rt)@.observer)
                &&& final(rt).is_silent_since(&*final(during))
            },
{
    let previous = rt.set_observer(None);
    let value = fun(rt);
    let _inner = rt.set_observer(previous);
    value
}

} // verus!
