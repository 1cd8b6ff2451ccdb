//! The data every reactive node carries, and its mathematical model.

use vstd::prelude::*;
use vstd::std_specs::cmp::PartialEqSpec;

verus! {

/// Whether a freshly computed `value` counts as a change against what was
/// cached before: there was nothing, or something that compares unequal.
pub open spec fn differs<T: PartialEq>(previous: Option<T>, value: T) -> bool {
    match previous {
        Some(p) => !p.eq_spec(&value),
        None => true,
    }
}

/// Staleness marker carried by every reactive node.
///
/// `Clean`: the value is current. `Check`: something upstream may have
/// changed and the sources must be asked. `Dirty`: the node's own value
/// changed (a signal that was written) or was never produced (a fresh memo
/// or effect).
#[derive(Clone, Copy, PartialEq, Eq, Structural, Debug)]
pub enum ReactiveNodeState {
    Clean,
    Check,
    Dirty,
}

/// What a node is: a writable cell, a cached derivation, or a side effect.
#[derive(Clone, Copy, PartialEq, Eq, Structural, Debug)]
pub enum NodeKind {
    Signal,
    Memo,
    Effect,
}

/// Why a pull could not produce a value.
#[derive(Clone, Copy, PartialEq, Eq, Structural, Debug)]
pub enum ReactiveError {
    /// The handle names no live node of the expected kind.
    Disposed,
    /// The node is already being recomputed further up the call stack.
    Cycle,
    /// The chain of pending sources is longer than the pull depth allows.
    DepthExceeded,
}

/// Identity of a node in its role as something others depend on.
///
/// Two handles are equal, and hash alike, exactly when they name the same
/// slot; what the slot holds plays no part.
#[derive(Clone, Copy, PartialEq, Eq, Structural, Hash, Debug)]
pub struct AnySource(pub usize);

/// Identity of a node in its role as something that depends on others.
///
/// Two handles are equal, and hash alike, exactly when they name the same
/// slot; what the slot holds plays no part.
#[derive(Clone, Copy, PartialEq, Eq, Structural, Hash, Debug)]
pub struct AnySubscriber(pub usize);

/// One slot of the arena.
pub struct Node<T> {
    pub kind: NodeKind,
    pub state: ReactiveNodeState,
    pub value: Option<T>,
    /// Nodes this one read during its last run, in the order it first read them.
    pub sources: Vec<usize>,
    /// Nodes that read this one and have not run since.
    pub subscribers: Vec<usize>,
    /// A direct source has reported a changed value since this node last ran.
    pub invalidated: bool,
    /// The node's function is on the call stack.
    pub running: bool,
    /// Cleared on disposal; a dead slot holds nothing and is never reused.
    pub live: bool,
    /// The scope that disposes this slot.
    pub owner: Option<usize>,
    /// How many times the node's function has been started.
    pub runs: Ghost<nat>,
}

/// The model of a [`Node`].
#[verifier::ext_equal]
pub struct NodeModel<T> {
    pub kind: NodeKind,
    pub state: ReactiveNodeState,
    pub value: Option<T>,
    pub sources: Seq<usize>,
    pub subscribers: Seq<usize>,
    pub invalidated: bool,
    pub running: bool,
    pub live: bool,
    pub owner: Option<usize>,
    pub runs: nat,
}

impl<T> View for Node<T> {
    type V = NodeModel<T>;

    open spec fn view(&self) -> NodeModel<T> {
        NodeModel {
            kind: self.kind,
            state: self.state,
            value: self.value,
            sources: self.sources@,
            subscribers: self.subscribers@,
            invalidated: self.invalidated,
            running: self.running,
            live: self.live,
            owner: self.owner,
            runs: self.runs@,
        }
    }
}

impl<T> NodeModel<T> {
    /// What holds of every node by itself: a live node has a value, unless
    /// it is a memo or an effect that has yet to run for the first time;
    /// and a node that has been told of a changed source is neither a
    /// signal nor `Clean`.
    pub open spec fn is_sound(self) -> bool {
        &&& self.live ==> self.value is Some || (self.kind != NodeKind::Signal && self.state
            == ReactiveNodeState::Dirty)
        &&& self.invalidated ==> self.kind != NodeKind::Signal && self.state
            != ReactiveNodeState::Clean
    }

    /// A node as it stands right after allocation.
    pub open spec fn fresh(
        kind: NodeKind,
        state: ReactiveNodeState,
        value: Option<T>,
        owner: Option<usize>,
    ) -> Self {
        NodeModel {
            kind,
            state,
            value,
            sources: Seq::empty(),
            subscribers: Seq::empty(),
            invalidated: false,
            running: false,
            live: true,
            owner,
            runs: 0,
        }
    }

    /// What is left of a node after disposal: its kind, its owner and its
    /// run count, and nothing else.
    pub open spec fn emptied(self) -> Self {
        NodeModel {
            kind: self.kind,
            state: ReactiveNodeState::Clean,
            value: None,
            sources: Seq::empty(),
            subscribers: Seq::empty(),
            invalidated: false,
            running: false,
            live: false,
            owner: self.owner,
            runs: self.runs,
        }
    }

    /// The push phase's effect on one node downstream of a change.
    ///
    /// A `Clean` node drops to `Check`; `Check` and `Dirty` stay. A direct
    /// subscriber of the changed node is also told that a source of its own
    /// has changed.
    pub open spec fn marked(self, direct: bool) -> Self {
        NodeModel {
            state: if self.state == ReactiveNodeState::Clean {
                ReactiveNodeState::Check
            } else {
                self.state
            },
            invalidated: self.invalidated || direct,
            ..self
        }
    }
}

impl<T> Node<T> {
    /// A live slot with no edges.
    pub fn new(kind: NodeKind, state: ReactiveNodeState, value: Option<T>, owner: Option<usize>) -> (node: Self)
        ensures
            node@ == NodeModel::<T>::fresh(kind, state, value, owner),
    {
        Node {
            kind,
            state,
            value,
            sources: Vec::new(),
            subscribers: Vec::new(),
            invalidated: false,
            running: false,
            live: true,
            owner,
            runs: Ghost(0),
        }
    }
}

} // verus!
