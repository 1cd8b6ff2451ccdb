//! The runtime: the arena behind an interface without preconditions, and
//! the pull phase that calls back into user code.

use crate::graph::Graph;
use crate::model::{GraphModel, Pull};
use crate::node::{differs, AnySubscriber, NodeKind, ReactiveError, ReactiveNodeState};
use crate::notify::NotificationSender;
use crate::replay::{
    cleaning, replay_ask, replay_poll, replay_pull, replay_run, stand_before, Cleaned, Run, Stand,
    Trace,
};
use vstd::prelude::*;
use vstd::std_specs::cmp::PartialEqSpec;

verus! {

/// The functions of the memos and effects of one runtime.
///
/// The runtime holds the graph; what a node computes is the caller's. A run
/// may read and write through the runtime it is handed, create nodes, and
/// pull other memos.
pub trait Reactions<T> {
    /// Produces the next value of memo or effect `node`, given the value it
    /// produced last time.
    fn run(&mut self, rt: &mut Runtime<T>, node: usize, previous: Option<T>) -> T;

    /// Runs the cleanup that was registered under `token`.
    fn cleanup(&mut self, rt: &mut Runtime<T>, token: usize);
}

/// A reactive runtime.
///
/// Every handle of the library names a slot of one runtime and is only
/// meaningful together with it.
pub struct Runtime<T> {
    graph: Graph<T>,
    /// The wake-up channel of each effect, by slot.
    notifiers: Vec<Option<NotificationSender>>,
    /// The effects that have been asked for a re-run, in the order they
    /// were asked, since the runtime was made.
    requests: Ghost<Seq<usize>>,
}

impl<T> View for Runtime<T> {
    type V = GraphModel<T>;

    closed spec fn view(&self) -> GraphModel<T> {
        self.graph@
    }
}

impl<T> Runtime<T> {
    #[verifier::type_invariant]
    spec fn inv(self) -> bool {
        self.graph.wf()
    }

    /// Whether a wake-up channel is filed for slot `id`.
    pub closed spec fn has_channel(&self, id: usize) -> bool {
        id < self.notifiers@.len() && self.notifiers@[id as int] is Some
    }

    /// The effects that have been asked for a re-run through their
    /// channels, in the order they were asked, since the runtime was made.
    /// An effect without a channel is on record like any other; there was
    /// just nobody to ask.
    pub closed spec fn wake_requests(&self) -> Seq<usize> {
        self.requests@
    }

    /// Whether the same slots have a channel here as in `before`.
    pub open spec fn keeps_channels(&self, before: &Runtime<T>) -> bool {
        forall|id: usize| #[trigger] self.has_channel(id) == before.has_channel(id)
    }

    /// Whether nothing has been done to a channel since `before`: the same
    /// slots have one, and nobody has been asked for a re-run.
    pub open spec fn is_silent_since(&self, before: &Runtime<T>) -> bool {
        self.keeps_channels(before) && self.wake_requests() == before.wake_requests()
    }

    /// Takes the graph out for a step, leaving an empty one in its place.
    fn take_graph(&mut self) -> (graph: Graph<T>)
        ensures
            graph == old(self).graph,
            graph.wf(),
            final(self).notifiers == old(self).notifiers,
            final(self).requests == old(self).requests,
    {
        proof {
            use_type_invariant(&*self);
        }
        let mut graph = Graph::new();
        std::mem::swap(&mut graph, &mut self.graph);
        graph
    }

    /// Puts the graph back after a step.
    fn put_graph(&mut self, graph: Graph<T>)
        requires
            graph.wf(),
        ensures
            final(self).graph == graph,
            final(self).notifiers == old(self).notifiers,
            final(self).requests == old(self).requests,
    {
        self.graph = graph;
    }

    /// Every runtime is well formed. Costs nothing at run time.
    pub fn well_formed(&self)
        ensures
            self@.wf(),
    {
        proof {
            use_type_invariant(self);
        }
    }

    /// A runtime with nothing in it.
    pub fn new() -> (rt: Self)
        ensures
            rt@ == GraphModel::<T>::empty(),
            rt.wake_requests() == Seq::<usize>::empty(),
            forall|id: usize| !rt.has_channel(id),
    {
        Runtime { graph: Graph::new(), notifiers: Vec::new(), requests: Ghost(Seq::empty()) }
    }

    /// Asks each listed effect for a re-run, through the channel that has
    /// been filed for its slot. A listed slot without a channel is passed
    /// over.
    ///
    /// The graph is not touched, and the list goes on record as asked. The
    /// table of channels keeps its shape: no channel is added or dropped,
    /// and the slots that are not listed hold what they held. Of the
    /// wake-ups themselves nothing is known here: whether one is taken is
    /// the channel's affair.
    fn wake(&mut self, list: &Vec<usize>)
        ensures
            final(self)@ == old(self)@,
            final(self).requests@ == old(self).requests@ + list@,
            final(self).notifiers@.len() == old(self).notifiers@.len(),
            forall|i: usize|
                i < old(self).notifiers@.len() ==> ((#[trigger] final(self).notifiers@[i as int])
                    is Some <==> old(self).notifiers@[i as int] is Some),
            forall|i: usize|
                i < old(self).notifiers@.len() && !list@.contains(i) ==> #[trigger] final(self).notifiers@[i as int] == old(self).notifiers@[i as int],
    {
        proof {
            use_type_invariant(&*self);
        }
        let mut notifiers: Vec<Option<NotificationSender>> = Vec::new();
        std::mem::swap(&mut notifiers, &mut self.notifiers);
        let ghost asked = self.requests@ + list@;
        self.requests = Ghost(asked);
        let mut k: usize = 0;
        while k < list.len()
            invariant
                k <= list.len(),
                self.graph == old(self).graph,
                self.requests@ == old(self).requests@ + list@,
                notifiers@.len() == old(self).notifiers@.len(),
                forall|i: usize|
                    i < notifiers@.len() ==> ((#[trigger] notifiers@[i as int]) is Some <==> old(self).notifiers@[i as int] is Some),
                forall|i: usize|
                    i < notifiers@.len() && !list@.take(k as int).contains(i)
                        ==> #[trigger] notifiers@[i as int] == old(self).notifiers@[i as int],
            decreases list.len() - k,
        {
            let id = list[k];
            proof {
                assert(list@.take(k + 1) =~= list@.take(k as int).push(id));
                assert forall|i: usize| !list@.take(k + 1).contains(i) implies i != id
                    && !list@.take(k as int).contains(i) by {
                    crate::seq_util::lemma_push_contains(list@.take(k as int), id, i);
                }
            }
            if id < notifiers.len() {
                wake_slot(&mut notifiers, id);
            }
            k += 1;
        }
        proof {
            assert(list@.take(list.len() as int) =~= list@);
        }
        self.notifiers = notifiers;
    }

    // ----- nodes --------------------------------------------------------

    /// A new signal holding `value`, `Clean`, owned by the current scope.
    pub fn create_signal(&mut self, value: T) -> (id: usize)
        requires
            old(self)@.nodes.len() < usize::MAX,
        ensures
            final(self).is_silent_since(old(self)),
            final(self)@ == old(self)@.allocate(
                NodeKind::Signal,
                ReactiveNodeState::Clean,
                Some(value),
            ),
            id == old(self)@.nodes.len(),
    {
        let mut graph = self.take_graph();
        let id = graph.allocate(NodeKind::Signal, ReactiveNodeState::Clean, Some(value));
        self.put_graph(graph);
        id
    }

    /// A new memo without a value, `Dirty` so that its first read computes
    /// it, owned by the current scope.
    pub fn create_memo(&mut self) -> (id: usize)
        requires
            old(self)@.nodes.len() < usize::MAX,
        ensures
            final(self).is_silent_since(old(self)),
            final(self)@ == old(self)@.allocate(NodeKind::Memo, ReactiveNodeState::Dirty, None),
            id == old(self)@.nodes.len(),
    {
        let mut graph = self.take_graph();
        let id = graph.allocate(NodeKind::Memo, ReactiveNodeState::Dirty, None);
        self.put_graph(graph);
        id
    }

    /// A new effect without a value, `Dirty` so that its first wake-up runs
    /// it, owned by the current scope and woken through `tx`.
    pub fn create_effect(&mut self, tx: NotificationSender) -> (id: usize)
        requires
            old(self)@.nodes.len() < usize::MAX,
        ensures
            final(self).wake_requests() == old(self).wake_requests(),
            final(self).has_channel(id),
            forall|other: usize|
                other != id ==> #[trigger] final(self).has_channel(other) == old(self).has_channel(other),
            final(self)@ == old(self)@.allocate(NodeKind::Effect, ReactiveNodeState::Dirty, None),
            id == old(self)@.nodes.len(),
    {
        let mut graph = self.take_graph();
        let id = graph.allocate(NodeKind::Effect, ReactiveNodeState::Dirty, None);
        self.put_graph(graph);
        self.install(id, tx);
        id
    }

    /// Files `tx` as the wake-up channel of slot `id`.
    ///
    /// The graph is not touched. The table of channels grows as far as it
    /// takes to have a slot `id`, the new slots being empty; slot `id`
    /// holds `tx` afterwards, and every other slot what it held.
    fn install(&mut self, id: usize, tx: NotificationSender)
        ensures
            final(self)@ == old(self)@,
            final(self).requests == old(self).requests,
            final(self).notifiers@.len() == (if id < old(self).notifiers@.len() {
                old(self).notifiers@.len()
            } else {
                (id + 1) as nat
            }),
            final(self).notifiers@[id as int] == Some(tx),
            forall|i: int|
                0 <= i < final(self).notifiers@.len() && i != id ==> #[trigger] final(self).notifiers@[i] == (if i < old(self).notifiers@.len() {
                    old(self).notifiers@[i]
                } else {
                    None
                }),
    {
        proof {
            use_type_invariant(&*self);
        }
        let mut notifiers: Vec<Option<NotificationSender>> = Vec::new();
        std::mem::swap(&mut notifiers, &mut self.notifiers);
        while notifiers.len() <= id
            invariant
                self.graph == old(self).graph,
                self.requests == old(self).requests,
                notifiers@.len() >= old(self).notifiers@.len(),
                notifiers@.len() <= id + 1 || notifiers@.len() == old(self).notifiers@.len(),
                forall|i: int|
                    0 <= i < notifiers@.len() ==> #[trigger] notifiers@[i] == (if i < old(self).notifiers@.len() {
                        old(self).notifiers@[i]
                    } else {
                        None
                    }),
            decreases id + 1 - notifiers.len(),
        {
            notifiers.push(None);
        }
        notifiers[id] = Some(tx);
        self.notifiers = notifiers;
    }

    /// Drops the wake-up channel of every dead slot, which ends the task
    /// that waits on it.
    ///
    /// The graph is not touched, and the table of channels keeps its
    /// length. Afterwards a slot whose node is dead, or was never
    /// allocated, holds no channel; every other slot holds what it held.
    fn hang_up(&mut self)
        ensures
            final(self)@ == old(self)@,
            final(self).requests == old(self).requests,
            final(self).notifiers@.len() == old(self).notifiers@.len(),
            forall|i: usize|
                i < old(self).notifiers@.len() ==> #[trigger] final(self).notifiers@[i as int] == (
                if old(self)@.is_live(i) {
                    old(self).notifiers@[i as int]
                } else {
                    None
                }),
    {
        proof {
            use_type_invariant(&*self);
        }
        let mut notifiers: Vec<Option<NotificationSender>> = Vec::new();
        std::mem::swap(&mut notifiers, &mut self.notifiers);
        let mut id: usize = 0;
        while id < notifiers.len()
            invariant
                self.graph == old(self).graph,
                self.requests == old(self).requests,
                notifiers@.len() == old(self).notifiers@.len(),
                forall|i: usize|
                    i < id && i < notifiers@.len() ==> #[trigger] notifiers@[i as int] == (
                    if old(self)@.is_live(i) {
                        old(self).notifiers@[i as int]
                    } else {
                        None
                    }),
                forall|i: usize|
                    id <= i < notifiers@.len() ==> #[trigger] notifiers@[i as int] == old(self).notifiers@[i as int],
            decreases notifiers.len() - id,
        {
            if !self.graph.is_live(id) {
                notifiers[id] = None;
            }
            id += 1;
        }
        self.notifiers = notifiers;
    }

    /// Disposes one slot: its edges are cut on both ends, its value is
    /// dropped, and an effect's wake-up channel is closed. Returns whether
    /// there was a live slot to dispose.
    ///
    /// Where there was, no dead slot has a channel afterwards: the sender
    /// has been dropped, which ends the task that waits on it.
    pub fn dispose_node(&mut self, id: usize) -> (was_live: bool)
        ensures
            final(self).wake_requests() == old(self).wake_requests(),
            forall|slot: usize| #[trigger]
                final(self).has_channel(slot) == (old(self).has_channel(slot) && (final(self)@.is_live(slot) || !was_live)),
            final(self)@ == old(self)@.dispose_node(id),
            was_live == old(self)@.is_live(id),
    {
        let mut graph = self.take_graph();
        let was_live = graph.dispose_node(id);
        self.put_graph(graph);
        if was_live {
            self.hang_up();
        }
        was_live
    }

    // ----- edges --------------------------------------------------------

    /// Records that `sub` depends on `source`, on both ends.
    pub fn add_edge(&mut self, source: usize, sub: usize)
        ensures
            final(self).is_silent_since(old(self)),
            final(self)@ == old(self)@.add_edge(source, sub),
    {
        let mut graph = self.take_graph();
        graph.add_edge(source, sub);
        self.put_graph(graph);
    }

    /// Forgets that `sub` depends on `source`, on both ends.
    pub fn remove_edge(&mut self, source: usize, sub: usize)
        ensures
            final(self).is_silent_since(old(self)),
            final(self)@ == old(self)@.remove_edge(source, sub),
    {
        let mut graph = self.take_graph();
        graph.remove_edge(source, sub);
        self.put_graph(graph);
    }

    /// `sub` forgets its sources, and they forget it.
    pub fn clear_sources(&mut self, sub: usize)
        ensures
            final(self).is_silent_since(old(self)),
            final(self)@ == old(self)@.clear_sources(sub),
    {
        let mut graph = self.take_graph();
        graph.clear_sources(sub);
        self.put_graph(graph);
    }

    /// `source` forgets its subscribers, and they forget it.
    pub fn clear_subscribers(&mut self, source: usize)
        ensures
            final(self).is_silent_since(old(self)),
            final(self)@ == old(self)@.clear_subscribers(source),
    {
        let mut graph = self.take_graph();
        graph.clear_subscribers(source);
        self.put_graph(graph);
    }

    /// A tracked read of `source`: an edge to the observer, if one is set.
    pub fn track(&mut self, source: usize)
        ensures
            final(self).is_silent_since(old(self)),
            final(self)@ == old(self)@.track(source),
    {
        let mut graph = self.take_graph();
        graph.track(source);
        self.put_graph(graph);
    }

    // ----- the observer -------------------------------------------------

    /// The subscriber that tracked reads are registered with, if any.
    pub fn observer(&self) -> (current: Option<AnySubscriber>)
        ensures
            current == self@.observer,
    {
        self.graph.observer.get()
    }

    /// Puts `observer` in charge of tracked reads and returns who was
    /// before.
    pub fn set_observer(&mut self, observer: Option<AnySubscriber>) -> (previous: Option<
        AnySubscriber,
    >)
        ensures
            final(self).is_silent_since(old(self)),
            final(self)@ == old(self)@.with_observer(observer),
            previous == old(self)@.observer,
    {
        let mut graph = self.take_graph();
        let previous = graph.observer.take();
        graph.observer.set(observer);
        proof {
            assert(graph@.nodes =~= old(self)@.nodes);
        }
        self.put_graph(graph);
        previous
    }

    // ----- signals ------------------------------------------------------

    /// A tracked read of signal `id`. `None` where `id` names no live
    /// signal; nothing is tracked then.
    pub fn read(&mut self, id: usize) -> (value: Option<T>) where T: Copy
        ensures
            final(self).is_silent_since(old(self)),
            final(self)@ == (if old(self)@.is_a(id, NodeKind::Signal) {
                old(self)@.track(id)
            } else {
                old(self)@
            }),
            value == (if old(self)@.is_a(id, NodeKind::Signal) {
                old(self)@.nodes[id as int].value
            } else {
                None
            }),
    {
        if self.graph.is_a(id, NodeKind::Signal) {
            let value = self.graph.value_of(id);
            self.track(id);
            value
        } else {
            None
        }
    }

    /// A write to signal `id`: the value is replaced, the signal is
    /// `Dirty`, everything downstream is marked, and the effects among it
    /// are woken. Returns whether `id` names a live signal; where it does
    /// not, nothing is done.
    pub fn write(&mut self, id: usize, value: T) -> (written: bool)
        ensures
            final(self).keeps_channels(old(self)),
            final(self).wake_requests() == old(self).wake_requests() + old(self)@.write_list(id),
            final(self)@ == old(self)@.write(id, value),
            written == old(self)@.is_a(id, NodeKind::Signal),
    {
        let mut graph = self.take_graph();
        let woken = graph.write(id, value);
        self.put_graph(graph);
        match woken {
            Some(list) => {
                self.wake(&list);
                true
            },
            None => false,
        }
    }

    /// A pull of signal `id`: it reports whether it was written since it
    /// was last pulled, and is `Clean` afterwards.
    pub fn poll_signal(&mut self, id: usize) -> (written: bool)
        ensures
            final(self).is_silent_since(old(self)),
            final(self)@ == old(self)@.poll_signal(id),
            written == (old(self)@.is_a(id, NodeKind::Signal) && old(self)@.nodes[id as int].state
                == ReactiveNodeState::Dirty),
    {
        let mut graph = self.take_graph();
        let written = graph.poll_signal(id);
        self.put_graph(graph);
        written
    }

    /// Replaces the value of signal `id` by what `fun` makes of it, and
    /// pushes the change as a write does. Returns whether `id` names a live
    /// signal; where it does not, `fun` is not called and nothing is done.
    pub fn update<F: FnOnce(T) -> T>(&mut self, id: usize, fun: F) -> (updated: bool) where T: Copy
        requires
            forall|v: T| call_requires(fun, (v,)),
        ensures
            final(self).keeps_channels(old(self)),
            final(self).wake_requests() == old(self).wake_requests() + old(self)@.write_list(id),
            updated == old(self)@.is_a(id, NodeKind::Signal),
            !updated ==> final(self)@ == old(self)@,
            updated ==> old(self)@.nodes[id as int].value is Some && exists|next: T|
                {
                    &&& #[trigger] call_ensures(
                        fun,
                        (old(self)@.nodes[id as int].value.unwrap(),),
                        next,
                    )
                    &&& final(self)@ == old(self)@.write(id, next)
                },
    {
        proof {
            use_type_invariant(&*self);
        }
        if !self.graph.is_a(id, NodeKind::Signal) {
            return false;
        }
        match self.graph.value_of(id) {
            Some(v) => {
                let next = fun(v);
                self.write(id, next)
            },
            None => {
                proof {
                    assert(self@.nodes[id as int].is_sound());
                }
                false
            },
        }
    }

    /// Replaces the cached value of `id` by what `fun` makes of it, marks
    /// nothing, and hands out what else `fun` returns.
    ///
    /// `None` where `id` has no value, and where a run of `id` is under
    /// way: for the length of a run the value belongs to the run. `fun` is
    /// not called then, and nothing changes.
    pub fn with_value_mut<U, F: FnOnce(T) -> (T, U)>(&mut self, id: usize, fun: F) -> (out: Option<
        U,
    >) where T: Copy
        requires
            forall|v: T| call_requires(fun, (v,)),
        ensures
            final(self).is_silent_since(old(self)),
            old(self)@.holds_value_at_rest(id) ==> exists|made: (T, U)|
                {
                    &&& #[trigger] call_ensures(
                        fun,
                        (old(self)@.nodes[id as int].value.unwrap(),),
                        made,
                    )
                    &&& out == Some(made.1)
                    &&& final(self)@ == old(self)@.amended(id, made.0)
                },
            !old(self)@.holds_value_at_rest(id) ==> out is None && final(self)@ == old(self)@,
    {
        if self.graph.is_running(id) {
            return None;
        }
        match self.graph.value_of(id) {
            Some(v) => {
                let pair = fun(v);
                let next = pair.0;
                let mut graph = self.take_graph();
                let _amended = graph.amend(id, next);
                self.put_graph(graph);
                Some(pair.1)
            },
            None => None,
        }
    }

    /// Tells `id` that it has changed itself, and wakes what that wakes.
    pub fn mark_dirty(&mut self, id: usize)
        ensures
            final(self).keeps_channels(old(self)),
            final(self).wake_requests() == old(self).wake_requests() + old(self)@.notice_list(id, false),
            final(self)@ == old(self)@.mark_dirty(id),
    {
        let mut graph = self.take_graph();
        let woken = graph.mark_dirty(id);
        self.put_graph(graph);
        self.wake(&woken);
    }

    /// Tells `id` that something upstream may have changed, and wakes what
    /// that wakes.
    pub fn mark_check(&mut self, id: usize)
        ensures
            final(self).keeps_channels(old(self)),
            final(self).wake_requests() == old(self).wake_requests() + old(self)@.notice_list(id, true),
            final(self)@ == old(self)@.mark_check(id),
    {
        let mut graph = self.take_graph();
        let woken = graph.mark_check(id);
        self.put_graph(graph);
        self.wake(&woken);
    }

    /// Marks everything downstream of `id` and wakes the effects among it.
    pub fn mark_subscribers_check(&mut self, id: usize)
        ensures
            final(self).keeps_channels(old(self)),
            final(self).wake_requests() == old(self).wake_requests() + old(self)@.wake_list(id),
            final(self)@ == old(self)@.propagated(id),
    {
        let mut graph = self.take_graph();
        let woken = graph.propagate(id);
        self.put_graph(graph);
        self.wake(&woken);
    }

    // ----- scopes -------------------------------------------------------

    /// Opens a scope below the current one and returns its number.
    pub fn new_owner(&mut self) -> (owner: usize)
        requires
            old(self)@.owners.len() < usize::MAX,
        ensures
            final(self).is_silent_since(old(self)),
            final(self)@ == old(self)@.new_owner(),
            owner == old(self)@.owners.len(),
    {
        let mut graph = self.take_graph();
        let owner = graph.new_owner();
        self.put_graph(graph);
        owner
    }

    /// The number of scopes ever opened.
    pub fn owner_count(&self) -> (n: usize)
        ensures
            n == self@.owners.len(),
    {
        self.graph.owners.len()
    }

    /// The number of cleanups ever registered.
    pub fn cleanup_count(&self) -> (n: usize)
        ensures
            n == self@.cleanups.len(),
    {
        self.graph.cleanups.len()
    }

    /// The number of slots ever allocated.
    pub fn node_count(&self) -> (n: usize)
        ensures
            n == self@.nodes.len(),
    {
        self.graph.len()
    }

    /// The current scope, if any.
    pub fn current_owner(&self) -> (owner: Option<usize>)
        ensures
            owner == self@.current_owner,
    {
        self.graph.current_owner
    }

    /// Makes `owner` the current scope and returns the one that was current
    /// before. A number that names no scope is refused: the current scope
    /// stays as it is.
    pub fn enter_owner(&mut self, owner: Option<usize>) -> (previous: Option<usize>)
        ensures
            final(self).is_silent_since(old(self)),
            previous == old(self)@.current_owner,
            final(self)@ == (if owner matches Some(o) && o >= old(self)@.owners.len() {
                old(self)@
            } else {
                old(self)@.with_current_owner(owner)
            }),
    {
        let mut graph = self.take_graph();
        let previous = graph.enter_owner(owner);
        self.put_graph(graph);
        previous
    }

    /// Registers a cleanup with the current scope and returns the token it
    /// will be handed out under. Without a current scope there is nothing
    /// to register with.
    pub fn on_cleanup(&mut self) -> (token: Option<usize>)
        requires
            old(self)@.cleanups.len() < usize::MAX,
        ensures
            final(self).is_silent_since(old(self)),
            final(self)@ == old(self)@.on_cleanup(),
            token == (if old(self)@.current_owner is Some {
                Some(old(self)@.cleanups.len() as usize)
            } else {
                None
            }),
    {
        let mut graph = self.take_graph();
        let token = graph.on_cleanup();
        self.put_graph(graph);
        token
    }

    /// Whether `owner` names a scope that has been disposed.
    pub fn is_disposed(&self, owner: usize) -> (disposed: bool)
        ensures
            disposed == (owner < self@.owners.len() && self@.owners[owner as int].disposed),
    {
        self.graph.is_disposed(owner)
    }

    /// Disposes `root` and every scope below it: the scopes are marked,
    /// their slots emptied and cut out of the graph, their effects' wake-up
    /// channels closed. Returns the cleanups that are now to be run, each
    /// once, in the order they were registered; a second disposal returns
    /// none.
    pub fn dispose_owner(&mut self, root: usize) -> (tokens: Vec<usize>)
        ensures
            final(self).wake_requests() == old(self).wake_requests(),
            forall|slot: usize| #[trigger]
                final(self).has_channel(slot) == (old(self).has_channel(slot) && final(self)@.is_live(slot)),
            final(self)@ == old(self)@.dispose_owner(root),
            old(self)@.is_due_list(root, tokens@),
    {
        let mut graph = self.take_graph();
        let tokens = graph.dispose_owner(root);
        self.put_graph(graph);
        self.hang_up();
        tokens
    }

    // ----- the pull phase -----------------------------------------------

    /// Runs the function of `id` once: its old edges are dropped, it is the
    /// observer for the extent of the run, and what it returns is stored.
    /// Where the new value differs from the old one, everything downstream
    /// is marked.
    ///
    /// Returns whether the value changed. `Cycle` where `id` is running
    /// already, `Disposed` where it names no live memo or effect, or none any
    /// more once its function has returned. The observer is the same after
    /// the call as before it, whatever the function did.
    ///
    /// The function is called exactly once, with the value cached before,
    /// on the graph as [`GraphModel::begin_run`] leaves it; whatever graph
    /// it leaves behind is finished by [`GraphModel::finish_run`].
    pub fn recompute<R: Reactions<T>>(&mut self, fns: &mut R, id: usize) -> (outcome: Result<
        bool,
        ReactiveError,
    >) where T: Copy + PartialEq
        ensures
            exists|run: Option<Run<T, R>>|
                {
                    let r = #[trigger] replay_run(
                        old(self)@,
                        *old(fns),
                        old(self).wake_requests(),
                        id,
                        run,
                    );
                    &&& r.fits
                    &&& r.graph == final(self)@
                    &&& r.table == *final(fns)
                    &&& r.requests == final(self).wake_requests()
                    &&& r.outcome == outcome
                    &&& run matches Some(ran) ==> exists|
                        table: &mut R,
                        during: &mut Runtime<T>,
                        node: usize,
                        previous: Option<T>,
                        value: T,
                    |
                        {
                            &&& #[trigger] call_ensures(R::run, (table, during, node, previous), value)
                            &&& node == ran.node && previous == ran.previous && value == ran.value
                            &&& *table == ran.table_before && *final(table) == ran.table_after
                            &&& (*during)@ == ran.before && (*final(during))@ == ran.after
                            &&& (*during).wake_requests() == ran.requests_before
                            &&& (*final(during)).wake_requests() == ran.requests_after
                        }
                },
            final(self)@.observer == old(self)@.observer,
            !old(self)@.can_run(id) ==> {
                &&& final(self)@ == old(self)@
                &&& *final(fns) == *old(fns)
                &&& outcome == Err::<bool, ReactiveError>(
                    if old(self)@.plan(id) == Pull::Busy {
                        ReactiveError::Cycle
                    } else {
                        ReactiveError::Disposed
                    },
                )
            },
            outcome is Ok ==> final(self)@.is_live(id) && final(self)@.nodes[id as int].value
                is Some,
            old(self)@.can_run(id) ==> exists|table: &mut R, during: &mut Runtime<T>, value: T|
                {
                    &&& #[trigger] call_ensures(
                        R::run,
                        (table, during, id, old(self)@.nodes[id as int].value),
                        value,
                    )
                    &&& *table == *old(fns)
                    &&& *final(table) == *final(fns)
                    &&& (*during)@ == old(self)@.begin_run(id).with_observer(
                        Some(AnySubscriber(id)),
                    )
                    &&& final(self)@ == (*final(during))@.with_observer(
                        old(self)@.observer,
                    ).finish_run(id, value, outcome == Ok::<bool, ReactiveError>(true))
                    &&& outcome is Ok <==> (*final(during))@.is_running(id)
                    &&& outcome is Err ==> outcome == Err::<bool, ReactiveError>(
                        ReactiveError::Disposed,
                    )
                    &&& T::obeys_eq_spec() ==> (outcome == Ok::<bool, ReactiveError>(true)) == (
                    (*final(during))@.is_running(id) && differs(
                        (*final(during))@.nodes[id as int].value,
                        value,
                    ))
                },
    {
        self.run_traced(fns, id).0
    }

    /// One run of `id`, with a record of what its function was handed and
    /// what it left.
    fn run_traced<R: Reactions<T>>(&mut self, fns: &mut R, id: usize) -> (out: (
        Result<bool, ReactiveError>,
        Ghost<Option<Run<T, R>>>,
    )) where T: Copy + PartialEq
        ensures
            final(self)@.observer == old(self)@.observer,
            !old(self)@.can_run(id) ==> {
                &&& final(self)@ == old(self)@
                &&& *final(fns) == *old(fns)
                &&& out.0 == Err::<bool, ReactiveError>(
                    if old(self)@.plan(id) == Pull::Busy {
                        ReactiveError::Cycle
                    } else {
                        ReactiveError::Disposed
                    },
                )
            },
            out.0 is Ok ==> final(self)@.is_live(id) && final(self)@.nodes[id as int].value
                is Some,
            old(self)@.can_run(id) ==> exists|table: &mut R, during: &mut Runtime<T>, value: T|
                {
                    &&& #[trigger] call_ensures(
                        R::run,
                        (table, during, id, old(self)@.nodes[id as int].value),
                        value,
                    )
                    &&& *table == *old(fns)
                    &&& *final(table) == *final(fns)
                    &&& (*during)@ == old(self)@.begin_run(id).with_observer(
                        Some(AnySubscriber(id)),
                    )
                    &&& final(self)@ == (*final(during))@.with_observer(
                        old(self)@.observer,
                    ).finish_run(id, value, out.0 == Ok::<bool, ReactiveError>(true))
                    &&& out.0 is Ok <==> (*final(during))@.is_running(id)
                    &&& out.0 is Err ==> out.0 == Err::<bool, ReactiveError>(
                        ReactiveError::Disposed,
                    )
                    &&& T::obeys_eq_spec() ==> (out.0 == Ok::<bool, ReactiveError>(true)) == (
                    (*final(during))@.is_running(id) && differs(
                        (*final(during))@.nodes[id as int].value,
                        value,
                    ))
                },
            ({
                let r = replay_run(old(self)@, *old(fns), old(self).wake_requests(), id, out.1@);
                &&& r.fits
                &&& r.graph == final(self)@
                &&& r.table == *final(fns)
                &&& r.requests == final(self).wake_requests()
                &&& r.outcome == out.0
            }),
            out.1@ matches Some(run) ==> exists|
                table: &mut R,
                during: &mut Runtime<T>,
                node: usize,
                previous: Option<T>,
                value: T,
            |
                {
                    &&& #[trigger] call_ensures(R::run, (table, during, node, previous), value)
                    &&& node == run.node && previous == run.previous && value == run.value
                    &&& *table == run.table_before && *final(table) == run.table_after
                    &&& (*during)@ == run.before && (*final(during))@ == run.after
                    &&& (*during).wake_requests() == run.requests_before
                    &&& (*final(during)).wake_requests() == run.requests_after
                },
    {
        let previous = self.graph.value_of(id);
        let running = self.graph.plan(id) == Pull::Busy;
        let mut graph = self.take_graph();
        let started = graph.begin_run(id);
        if !started {
            self.put_graph(graph);
            return (
                Err(
                    if running {
                        ReactiveError::Cycle
                    } else {
                        ReactiveError::Disposed
                    },
                ),
                Ghost(None),
            );
        }
        let outer = graph.observer.take();
        graph.observer.set(Some(AnySubscriber(id)));
        proof {
            assert(graph@.nodes =~= old(self)@.begin_run(id).nodes);
        }
        self.put_graph(graph);
        let ghost before = self@;
        let ghost table_before = *fns;
        let ghost requests_before = self.wake_requests();
        let value = fns.run(self, id, previous);
        let ghost after = self@;
        let ghost table_after = *fns;
        let ghost requests_after = self.wake_requests();
        let mut graph = self.take_graph();
        graph.observer.set(outer);
        let finished = graph.finish_run(id, value);
        self.put_graph(graph);
        match finished {
            Some((changed, woken)) => {
                self.wake(&woken);
                (
                    Ok(changed),
                    Ghost(
                        Some(
                            Run {
                                node: id,
                                previous,
                                value,
                                changed,
                                table_before,
                                table_after,
                                before,
                                after,
                                requests_before,
                                requests_after,
                            },
                        ),
                    ),
                )
            },
            None => (
                Err(ReactiveError::Disposed),
                Ghost(
                    Some(
                        Run {
                            node: id,
                            previous,
                            value,
                            changed: false,
                            table_before,
                            table_after,
                            before,
                            after,
                            requests_before,
                            requests_after,
                        },
                    ),
                ),
            ),
        }
    }

    /// A round of questions to the sources of `id`, with `id` on the stack
    /// for as long as it lasts.
    fn ask_sources<R: Reactions<T>>(&mut self, fns: &mut R, id: usize, depth: usize) -> (out: (
        Result<(), ReactiveError>,
        Ghost<Seq<Trace<T, R>>>,
    )) where T: Copy + PartialEq
        ensures
            final(self)@.observer == old(self)@.observer,
            ({
                let p = replay_ask(
                    old(self)@,
                    *old(fns),
                    old(self).wake_requests(),
                    id,
                    depth as nat,
                    out.1@,
                );
                &&& p.fits
                &&& p.graph == final(self)@
                &&& p.table == *final(fns)
                &&& p.requests == final(self).wake_requests()
                &&& p.error == (match out.0 {
                    Ok(_) => None::<ReactiveError>,
                    Err(e) => Some(e),
                })
            }),
            forall|j: int, run: Run<T, R>|
                0 <= j < out.1@.len() && (#[trigger] out.1@[j].holds(run)) ==> exists|
                    table: &mut R,
                    during: &mut Runtime<T>,
                    node: usize,
                    previous: Option<T>,
                    value: T,
                |
                    {
                        &&& #[trigger] call_ensures(R::run, (table, during, node, previous), value)
                        &&& node == run.node && previous == run.previous && value == run.value
                        &&& *table == run.table_before && *final(table) == run.table_after
                        &&& (*during)@ == run.before && (*final(during))@ == run.after
                        &&& (*during).wake_requests() == run.requests_before
                        &&& (*final(during)).wake_requests() == run.requests_after
                    },
            old(self)@.can_run(id) && old(self)@.is_pending(id) && old(self)@.sources_resolved(id)
                ==> {
                &&& out.0 == Ok::<(), ReactiveError>(())
                &&& final(self)@ == old(self)@.asked(id)
                &&& *final(fns) == *old(fns)
            },
            old(self)@.can_run(id) && !old(self)@.is_pending(id) ==> {
                &&& out.0 == Ok::<(), ReactiveError>(())
                &&& final(self)@ == old(self)@
                &&& *final(fns) == *old(fns)
            },
        decreases depth, 2nat,
    {
        let ghost sources = self@.nodes[id as int].sources;
        let mut graph = self.take_graph();
        let started = graph.begin_poll(id);
        self.put_graph(graph);
        if !started {
            return (Err(ReactiveError::Cycle), Ghost(Seq::empty()));
        }
        let ghost begun = self@;
        proof {
            if old(self)@.sources_resolved(id) {
                assert(begun.nodes[id as int].sources == sources);
                assert forall|k: int| 0 <= k < sources.len() implies begun.is_resolved(
                    #[trigger] sources[k],
                ) by {
                    assert(old(self)@.is_resolved(sources[k]));
                    assert(sources[k] != id);
                }
            }
        }
        let (answer, asked) = self.poll_sources(fns, id, depth);
        let mut graph = self.take_graph();
        graph.end_poll(id);
        proof {
            if !old(self)@.is_pending(id) {
                assert(graph@.nodes =~= old(self)@.nodes);
            }
        }
        self.put_graph(graph);
        (answer, asked)
    }

    /// Pulls the recorded sources of `id` one after the other, until one of
    /// them has told `id` of a change or all have been asked.
    fn poll_sources<R: Reactions<T>>(&mut self, fns: &mut R, id: usize, depth: usize) -> (out: (
        Result<(), ReactiveError>,
        Ghost<Seq<Trace<T, R>>>,
    )) where T: Copy + PartialEq
        ensures
            final(self)@.observer == old(self)@.observer,
            ({
                let p = replay_poll(
                    old(self)@,
                    *old(fns),
                    old(self).wake_requests(),
                    id,
                    if id < old(self)@.nodes.len() {
                        old(self)@.nodes[id as int].sources
                    } else {
                        Seq::empty()
                    },
                    0,
                    depth as nat,
                    out.1@,
                );
                &&& p.fits
                &&& p.graph == final(self)@
                &&& p.table == *final(fns)
                &&& p.requests == final(self).wake_requests()
                &&& p.error == (match out.0 {
                    Ok(_) => None::<ReactiveError>,
                    Err(e) => Some(e),
                })
            }),
            forall|j: int, run: Run<T, R>|
                0 <= j < out.1@.len() && (#[trigger] out.1@[j].holds(run)) ==> exists|
                    table: &mut R,
                    during: &mut Runtime<T>,
                    node: usize,
                    previous: Option<T>,
                    value: T,
                |
                    {
                        &&& #[trigger] call_ensures(R::run, (table, during, node, previous), value)
                        &&& node == run.node && previous == run.previous && value == run.value
                        &&& *table == run.table_before && *final(table) == run.table_after
                        &&& (*during)@ == run.before && (*final(during))@ == run.after
                        &&& (*during).wake_requests() == run.requests_before
                        &&& (*final(during)).wake_requests() == run.requests_after
                    },
            old(self)@.is_pending(id) && old(self)@.nodes[id as int].kind != NodeKind::Signal
                && old(self)@.sources_resolved(id) ==> {
                &&& out.0 == Ok::<(), ReactiveError>(())
                &&& final(self)@ == old(self)@.poll_all(old(self)@.nodes[id as int].sources)
                &&& *final(fns) == *old(fns)
            },
            !old(self)@.is_pending(id) ==> {
                &&& out.0 == Ok::<(), ReactiveError>(())
                &&& final(self)@ == old(self)@
                &&& *final(fns) == *old(fns)
            },
        decreases depth, 1nat,
    {
        proof {
            use_type_invariant(&*self);
        }
        let sources = self.graph.sources_of(id);
        let ghost mut asked: Seq<Trace<T, R>> = Seq::empty();
        let ghost calm = old(self)@.is_pending(id) && old(self)@.nodes[id as int].kind
            != NodeKind::Signal && old(self)@.sources_resolved(id);
        let mut k: usize = 0;
        proof {
            assert(sources@.take(0) =~= Seq::empty());
        }
        while k < sources.len()
            invariant
                k <= sources.len(),
                self@.observer == old(self)@.observer,
                old(self)@.wf(),
                calm == (old(self)@.is_pending(id) && old(self)@.nodes[id as int].kind
                    != NodeKind::Signal && old(self)@.sources_resolved(id)),
                calm ==> sources@ == old(self)@.nodes[id as int].sources,
                calm ==> self@ == old(self)@.poll_all(sources@.take(k as int)) && *fns == *old(
                    fns,
                ),
                !old(self)@.is_pending(id) ==> self@ == old(self)@ && *fns == *old(fns),
                self@.wf(),
                sources@ == (if id < old(self)@.nodes.len() {
                    old(self)@.nodes[id as int].sources
                } else {
                    Seq::empty()
                }),
                asked.len() == k,
                forall|full: Seq<Trace<T, R>>|
                    full.len() >= k && full.take(k as int) == asked ==> #[trigger] replay_poll(
                        old(self)@,
                        *old(fns),
                        old(self).wake_requests(),
                        id,
                        sources@,
                        0,
                        depth as nat,
                        full,
                    ) == replay_poll(
                        self@,
                        *fns,
                        self.wake_requests(),
                        id,
                        sources@,
                        k as nat,
                        depth as nat,
                        full,
                    ),
                forall|j: int, run: Run<T, R>|
                    0 <= j < asked.len() && (#[trigger] asked[j].holds(run)) ==> exists|
                        table: &mut R,
                        during: &mut Runtime<T>,
                        node: usize,
                        previous: Option<T>,
                        value: T,
                    |
                        {
                            &&& #[trigger] call_ensures(R::run, (table, during, node, previous), value)
                            &&& node == run.node && previous == run.previous && value == run.value
                            &&& *table == run.table_before && *final(table) == run.table_after
                            &&& (*during)@ == run.before && (*final(during))@ == run.after
                            &&& (*during).wake_requests() == run.requests_before
                            &&& (*final(during)).wake_requests() == run.requests_after
                        },
            decreases sources.len() - k,
        {
            proof {
                if calm {
                    old(self)@.lemma_poll_all(sources@.take(k as int));
                    assert(old(self)@.is_resolved(sources@[k as int]));
                    assert(!self@.is_written(sources@[k as int]));
                    assert(sources@.take(k + 1).drop_last() =~= sources@.take(k as int));
                }
            }
            if !self.graph.is_pending(id) {
                proof {
                    assert(asked.take(k as int) =~= asked);
                }
                return (Ok(()), Ghost(asked));
            }
            let ghost asked_before = asked;
            let ghost graph_before = self@;
            let ghost table_before = *fns;
            let ghost requests_before = self.wake_requests();
            let (answer, Ghost(trace)) = self.pull(fns, sources[k], depth);
            proof {
                use_type_invariant(&*self);
                asked = asked_before.push(trace);
                assert forall|j: int, run: Run<T, R>|
                    0 <= j < asked.len() && (#[trigger] asked[j].holds(run)) implies exists|
                        table: &mut R,
                        during: &mut Runtime<T>,
                        node: usize,
                        previous: Option<T>,
                        value: T,
                    |
                        {
                            &&& #[trigger] call_ensures(R::run, (table, during, node, previous), value)
                            &&& node == run.node && previous == run.previous && value == run.value
                            &&& *table == run.table_before && *final(table) == run.table_after
                            &&& (*during)@ == run.before && (*final(during))@ == run.after
                            &&& (*during).wake_requests() == run.requests_before
                            &&& (*final(during)).wake_requests() == run.requests_after
                        } by {
                    if j < k {
                        assert(asked_before[j].holds(run));
                    }
                }
            }
            match answer {
                Err(ReactiveError::Cycle) => {
                    proof {
                        assert(asked.take(k as int) =~= asked_before);
                    }
                    return (Err(ReactiveError::Cycle), Ghost(asked));
                },
                Err(ReactiveError::DepthExceeded) => {
                    proof {
                        assert(asked.take(k as int) =~= asked_before);
                    }
                    return (Err(ReactiveError::DepthExceeded), Ghost(asked));
                },
                // a source that is gone has nothing to report
                Err(ReactiveError::Disposed) => {},
                Ok(false) => {},
                Ok(true) => {
                    let mut graph = self.take_graph();
                    graph.tell(id);
                    self.put_graph(graph);
                },
            }
            proof {
                assert forall|full: Seq<Trace<T, R>>|
                    full.len() >= k + 1 && full.take(k + 1) == asked implies #[trigger] replay_poll(
                    old(self)@,
                    *old(fns),
                    old(self).wake_requests(),
                    id,
                    sources@,
                    0,
                    depth as nat,
                    full,
                ) == replay_poll(
                    self@,
                    *fns,
                    self.wake_requests(),
                    id,
                    sources@,
                    (k + 1) as nat,
                    depth as nat,
                    full,
                ) by {
                    assert(full.take(k as int) =~= asked_before) by {
                        assert(full.take(k + 1).take(k as int) =~= full.take(k as int));
                    }
                    assert(full[k as int] == trace) by {
                        assert(full.take(k + 1)[k as int] == full[k as int]);
                    }
                    assert(replay_poll(
                        old(self)@,
                        *old(fns),
                        old(self).wake_requests(),
                        id,
                        sources@,
                        0,
                        depth as nat,
                        full,
                    ) == replay_poll(
                        graph_before,
                        table_before,
                        requests_before,
                        id,
                        sources@,
                        k as nat,
                        depth as nat,
                        full,
                    ));
                }
            }
            k += 1;
        }
        proof {
            assert(sources@.take(sources.len() as int) =~= sources@);
            assert(asked.take(k as int) =~= asked);
        }
        (Ok(()), Ghost(asked))
    }

    /// The pull phase for `id`, with a bound on how far a chain of unsure
    /// sources is followed.
    fn pull<R: Reactions<T>>(&mut self, fns: &mut R, id: usize, depth: usize) -> (out: (
        Result<bool, ReactiveError>,
        Ghost<Trace<T, R>>,
    )) where T: Copy + PartialEq
        ensures
            ({
                let r = replay_pull(
                    old(self)@,
                    *old(fns),
                    old(self).wake_requests(),
                    id,
                    depth as nat,
                    out.1@,
                );
                &&& r.fits
                &&& r.graph == final(self)@
                &&& r.table == *final(fns)
                &&& r.requests == final(self).wake_requests()
                &&& r.outcome == out.0
            }),
            forall|run: Run<T, R>| #[trigger] out.1@.holds(run) ==> exists|
                    table: &mut R,
                    during: &mut Runtime<T>,
                    node: usize,
                    previous: Option<T>,
                    value: T,
                |
                    {
                        &&& #[trigger] call_ensures(R::run, (table, during, node, previous), value)
                        &&& node == run.node && previous == run.previous && value == run.value
                        &&& *table == run.table_before && *final(table) == run.table_after
                        &&& (*during)@ == run.before && (*final(during))@ == run.after
                        &&& (*during).wake_requests() == run.requests_before
                        &&& (*final(during)).wake_requests() == run.requests_after
                    },
            final(self)@.observer == old(self)@.observer,
            old(self)@.plan(id) == Pull::Absent ==> {
                &&& out.0 == Err::<bool, ReactiveError>(ReactiveError::Disposed)
                &&& final(self)@ == old(self)@
                &&& *final(fns) == *old(fns)
            },
            old(self)@.plan(id) == Pull::Busy ==> {
                &&& out.0 == Err::<bool, ReactiveError>(ReactiveError::Cycle)
                &&& final(self)@ == old(self)@
                &&& *final(fns) == *old(fns)
            },
            old(self)@.plan(id) == Pull::Source ==> {
                &&& out.0 == Ok::<bool, ReactiveError>(
                    old(self)@.nodes[id as int].state == ReactiveNodeState::Dirty,
                )
                &&& final(self)@ == old(self)@.poll_signal(id)
                &&& *final(fns) == *old(fns)
            },
            old(self)@.plan(id) == Pull::Fresh && !old(self)@.is_a(id, NodeKind::Effect) ==> {
                &&& out.0 == Ok::<bool, ReactiveError>(false)
                &&& final(self)@ == old(self)@
                &&& *final(fns) == *old(fns)
            },
            depth > 0 && old(self)@.plan(id) == Pull::Unsure && !old(self)@.is_a(id, NodeKind::Effect)
                && old(self)@.sources_resolved(id) ==> {
                &&& out.0 == Ok::<bool, ReactiveError>(false)
                &&& final(self)@ == old(self)@.asked(id).settle(id)
                &&& *final(fns) == *old(fns)
            },
            depth > 0 && old(self)@.is_a(id, NodeKind::Effect) && old(self)@.can_run(id) && old(self)@.is_pending(id)
                && old(self)@.sources_resolved(id) ==> {
                &&& out.0 == Ok::<bool, ReactiveError>(false)
                &&& final(self)@ == old(self)@.asked(id)
                &&& *final(fns) == *old(fns)
            },
            depth > 0 && old(self)@.is_a(id, NodeKind::Effect) && old(self)@.can_run(id) && !old(self)@.is_pending(id) ==> {
                &&& out.0 == Ok::<bool, ReactiveError>(true)
                &&& final(self)@ == old(self)@
                &&& *final(fns) == *old(fns)
            },
            old(self)@.plan(id) == Pull::Stale && !old(self)@.is_a(id, NodeKind::Effect) ==> exists|
                table: &mut R,
                during: &mut Runtime<T>,
                value: T,
            |
                {
                    &&& #[trigger] call_ensures(
                        R::run,
                        (table, during, id, old(self)@.nodes[id as int].value),
                        value,
                    )
                    &&& *table == *old(fns)
                    &&& *final(table) == *final(fns)
                    &&& (*during)@ == old(self)@.begin_run(id).with_observer(Some(AnySubscriber(id)))
                    &&& final(self)@ == (*final(during))@.with_observer(old(self)@.observer).finish_run(
                        id,
                        value,
                        out.0 == Ok::<bool, ReactiveError>(true),
                    )
                    &&& out.0 is Ok <==> (*final(during))@.is_running(id)
                    &&& out.0 is Err ==> out.0 == Err::<bool, ReactiveError>(ReactiveError::Disposed)
                    &&& T::obeys_eq_spec() ==> (out.0 == Ok::<bool, ReactiveError>(true)) == (
                    (*final(during))@.is_running(id) && differs(
                        (*final(during))@.nodes[id as int].value,
                        value,
                    ))
                },
            out.0 is Ok && old(self)@.is_a(id, NodeKind::Memo) ==> final(self)@.is_live(id)
                && final(self)@.nodes[id as int].value is Some,
        decreases depth, 0nat,
    {
        proof {
            use_type_invariant(&*self);
        }
        let ghost quiet: Trace<T, R> = Trace { asked: Seq::empty(), run: None };
        let plan = self.graph.plan(id);
        match plan {
            Pull::Absent => {
                return (Err(ReactiveError::Disposed), Ghost(quiet));
            },
            Pull::Busy => {
                return (Err(ReactiveError::Cycle), Ghost(quiet));
            },
            Pull::Source => {
                let mut graph = self.take_graph();
                let written = graph.poll_signal(id);
                self.put_graph(graph);
                return (Ok(written), Ghost(quiet));
            },
            _ => {},
        }
        if self.graph.is_a(id, NodeKind::Effect) {
            // an effect is never run from here: it is asked to run itself
            if depth == 0 {
                return (Err(ReactiveError::DepthExceeded), Ghost(quiet));
            }
            let (answer, Ghost(asked)) = self.ask_sources(fns, id, depth - 1);
            let ghost trace = Trace { asked, run: None };
            proof {
                assert forall|run: Run<T, R>| #[trigger] trace.holds(run) implies exists|
                    table: &mut R,
                    during: &mut Runtime<T>,
                    node: usize,
                    previous: Option<T>,
                    value: T,
                |
                    {
                        &&& #[trigger] call_ensures(R::run, (table, during, node, previous), value)
                        &&& node == run.node && previous == run.previous && value == run.value
                        &&& *table == run.table_before && *final(table) == run.table_after
                        &&& (*during)@ == run.before && (*final(during))@ == run.after
                        &&& (*during).wake_requests() == run.requests_before
                        &&& (*final(during)).wake_requests() == run.requests_after
                    } by {
                    if trace.run != Some(run) {
                        let j = choose|j: int|
                            0 <= j < trace.asked.len() && (#[trigger] trace.asked[j]).holds(run);
                        assert(trace.asked[j].holds(run));
                    }
                }
            }
            match answer {
                Err(e) => {
                    return (Err(e), Ghost(trace));
                },
                Ok(()) => {},
            }
            proof {
                use_type_invariant(&*self);
                if old(self)@.can_run(id) {
                    old(self)@.lemma_asked(id);
                }
            }
            let told = self.graph.is_live(id) && !self.graph.is_pending(id);
            if told {
                let mut own: Vec<usize> = Vec::new();
                own.push(id);
                self.wake(&own);
            }
            return (Ok(told), Ghost(trace));
        }
        match plan {
            Pull::Fresh => (Ok(false), Ghost(quiet)),
            Pull::Stale => {
                let (outcome, Ghost(run)) = self.run_traced(fns, id);
                (outcome, Ghost(Trace { asked: Seq::empty(), run }))
            },
            _ => {
                if depth == 0 {
                    return (Err(ReactiveError::DepthExceeded), Ghost(quiet));
                }
                let (answer, Ghost(asked)) = self.ask_sources(fns, id, depth - 1);
                let ghost silent = Trace { asked, run: None };
                proof {
                    assert forall|run: Run<T, R>| #[trigger] silent.holds(run) implies exists|
                        table: &mut R,
                        during: &mut Runtime<T>,
                        node: usize,
                        previous: Option<T>,
                        value: T,
                    |
                        {
                            &&& #[trigger] call_ensures(R::run, (table, during, node, previous), value)
                            &&& node == run.node && previous == run.previous && value == run.value
                            &&& *table == run.table_before && *final(table) == run.table_after
                            &&& (*during)@ == run.before && (*final(during))@ == run.after
                            &&& (*during).wake_requests() == run.requests_before
                            &&& (*final(during)).wake_requests() == run.requests_after
                        } by {
                        if silent.run != Some(run) {
                            let j = choose|j: int|
                                0 <= j < silent.asked.len() && (#[trigger] silent.asked[j]).holds(run);
                            assert(silent.asked[j].holds(run));
                        }
                    }
                }
                match answer {
                    Err(e) => {
                        return (Err(e), Ghost(silent));
                    },
                    Ok(()) => {},
                }
                proof {
                    use_type_invariant(&*self);
                    old(self)@.lemma_asked(id);
                }
                match self.graph.plan(id) {
                    Pull::Absent => (Err(ReactiveError::Disposed), Ghost(silent)),
                    Pull::Busy => (Err(ReactiveError::Cycle), Ghost(silent)),
                    Pull::Stale => {
                        let (outcome, Ghost(run)) = self.run_traced(fns, id);
                        let ghost trace = Trace { asked, run };
                        proof {
                            assert forall|run: Run<T, R>| #[trigger] trace.holds(run) implies exists|
                                table: &mut R,
                                during: &mut Runtime<T>,
                                node: usize,
                                previous: Option<T>,
                                value: T,
                            |
                                {
                                    &&& #[trigger] call_ensures(R::run, (table, during, node, previous), value)
                                    &&& node == run.node && previous == run.previous && value == run.value
                                    &&& *table == run.table_before && *final(table) == run.table_after
                                    &&& (*during)@ == run.before && (*final(during))@ == run.after
                                    &&& (*during).wake_requests() == run.requests_before
                                    &&& (*final(during)).wake_requests() == run.requests_after
                                } by {
                                if trace.run != Some(run) {
                                    let j = choose|j: int|
                                        0 <= j < trace.asked.len() && (#[trigger] trace.asked[j]).holds(run);
                                    assert(trace.asked[j].holds(run));
                                }
                            }
                        }
                        (outcome, Ghost(trace))
                    },
                    Pull::Unsure => {
                        let mut graph = self.take_graph();
                        let _settled = graph.settle(id);
                        self.put_graph(graph);
                        (Ok(false), Ghost(silent))
                    },
                    // resolved in the meantime by one of the sources' own pulls
                    Pull::Fresh => (Ok(false), Ghost(silent)),
                    Pull::Source => (Ok(false), Ghost(silent)),
                }
            },
        }
    }

    /// Brings `id` up to date if it is not, and says whether its value
    /// changed in doing so.
    ///
    /// - A `Clean` memo is left alone: `Ok(false)`, and no function is
    ///   called.
    /// - A signal reports whether it was written since it was last pulled,
    ///   and is `Clean` afterwards.
    /// - A `Dirty` memo is recomputed.
    /// - A `Check` memo pulls its recorded sources in order, until one of
    ///   them tells it of a change. It is then recomputed; where none does,
    ///   it becomes `Clean` without running.
    /// - An effect pulls its sources likewise, and is woken, not run, once
    ///   one of them has changed.
    ///
    /// `Disposed` where `id` names no live node, `Cycle` where `id` or a
    /// source it pulls is being recomputed further up the stack.
    ///
    /// A source that answers "changed" counts as a change whether or not
    /// the push phase has told `id` of it.
    ///
    /// Whatever the user functions do, the graph afterwards and the answer
    /// are what [`replay_pull`] makes of the calls that were made: there
    /// is a trace of them, each a call of [`Reactions::run`] on the graph
    /// that was due at that point, that the pull replays to this end.
    pub fn update_if_necessary<R: Reactions<T>>(&mut self, fns: &mut R, id: usize) -> (outcome:
        Result<bool, ReactiveError>) where T: Copy + PartialEq
        ensures
            exists|trace: Trace<T, R>|
                {
                    let r = #[trigger] replay_pull(
                        old(self)@,
                        *old(fns),
                        old(self).wake_requests(),
                        id,
                        usize::MAX as nat,
                        trace,
                    );
                    &&& r.fits
                    &&& r.requests == final(self).wake_requests()
                    &&& r.graph == final(self)@
                    &&& r.table == *final(fns)
                    &&& r.outcome == outcome
                    &&& forall|run: Run<T, R>| #[trigger] trace.holds(run) ==> exists|
                        table: &mut R,
                        during: &mut Runtime<T>,
                        node: usize,
                        previous: Option<T>,
                        value: T,
                    |
                        {
                            &&& #[trigger] call_ensures(R::run, (table, during, node, previous), value)
                            &&& node == run.node && previous == run.previous && value == run.value
                            &&& *table == run.table_before && *final(table) == run.table_after
                            &&& (*during)@ == run.before && (*final(during))@ == run.after
                            &&& (*during).wake_requests() == run.requests_before
                            &&& (*final(during)).wake_requests() == run.requests_after
                        }
                },
            final(self)@.observer == old(self)@.observer,
            old(self)@.plan(id) == Pull::Absent ==> {
                &&& outcome == Err::<bool, ReactiveError>(ReactiveError::Disposed)
                &&& final(self)@ == old(self)@
                &&& *final(fns) == *old(fns)
            },
            old(self)@.plan(id) == Pull::Busy ==> {
                &&& outcome == Err::<bool, ReactiveError>(ReactiveError::Cycle)
                &&& final(self)@ == old(self)@
                &&& *final(fns) == *old(fns)
            },
            old(self)@.plan(id) == Pull::Source ==> {
                &&& outcome == Ok::<bool, ReactiveError>(
                    old(self)@.nodes[id as int].state == ReactiveNodeState::Dirty,
                )
                &&& final(self)@ == old(self)@.poll_signal(id)
                &&& *final(fns) == *old(fns)
            },
            old(self)@.plan(id) == Pull::Fresh && !old(self)@.is_a(id, NodeKind::Effect) ==> {
                &&& outcome == Ok::<bool, ReactiveError>(false)
                &&& final(self)@ == old(self)@
                &&& *final(fns) == *old(fns)
            },
            old(self)@.plan(id) == Pull::Unsure && !old(self)@.is_a(id, NodeKind::Effect)
                && old(self)@.sources_resolved(id) ==> {
                &&& outcome == Ok::<bool, ReactiveError>(false)
                &&& final(self)@ == old(self)@.asked(id).settle(id)
                &&& *final(fns) == *old(fns)
            },
            old(self)@.is_a(id, NodeKind::Effect) && old(self)@.can_run(id) && old(self)@.is_pending(id)
                && old(self)@.sources_resolved(id) ==> {
                &&& outcome == Ok::<bool, ReactiveError>(false)
                &&& final(self)@ == old(self)@.asked(id)
                &&& *final(fns) == *old(fns)
            },
            old(self)@.is_a(id, NodeKind::Effect) && old(self)@.can_run(id) && !old(self)@.is_pending(id) ==> {
                &&& outcome == Ok::<bool, ReactiveError>(true)
                &&& final(self)@ == old(self)@
                &&& *final(fns) == *old(fns)
            },
            old(self)@.plan(id) == Pull::Stale && !old(self)@.is_a(id, NodeKind::Effect) ==> exists|
                table: &mut R,
                during: &mut Runtime<T>,
                value: T,
            |
                {
                    &&& #[trigger] call_ensures(
                        R::run,
                        (table, during, id, old(self)@.nodes[id as int].value),
                        value,
                    )
                    &&& *table == *old(fns)
                    &&& *final(table) == *final(fns)
                    &&& (*during)@ == old(self)@.begin_run(id).with_observer(Some(AnySubscriber(id)))
                    &&& final(self)@ == (*final(during))@.with_observer(old(self)@.observer).finish_run(
                        id,
                        value,
                        outcome == Ok::<bool, ReactiveError>(true),
                    )
                    &&& outcome is Ok <==> (*final(during))@.is_running(id)
                    &&& outcome is Err ==> outcome == Err::<bool, ReactiveError>(ReactiveError::Disposed)
                    &&& T::obeys_eq_spec() ==> (outcome == Ok::<bool, ReactiveError>(true)) == (
                    (*final(during))@.is_running(id) && differs(
                        (*final(during))@.nodes[id as int].value,
                        value,
                    ))
                },
            outcome is Ok && old(self)@.is_a(id, NodeKind::Memo) ==> final(self)@.is_live(id)
                && final(self)@.nodes[id as int].value is Some,
    {
        self.pull(fns, id, usize::MAX).0
    }

    /// A tracked read of memo `id`: the memo is brought up to date, an edge
    /// to the observer is recorded, and the cached value is returned.
    ///
    /// A `Clean` memo answers from its cache: no function is called and the
    /// graph gains at most the edge to the observer. So does a memo in
    /// `Check` whose sources turn out to be unchanged. A memo that has to
    /// run calls its function exactly once. `Disposed` where `id` names no
    /// live memo, `Cycle` where it is being recomputed further up the
    /// stack.
    pub fn read_memo<R: Reactions<T>>(&mut self, fns: &mut R, id: usize) -> (outcome: Result<
        T,
        ReactiveError,
    >) where T: Copy + PartialEq
        ensures
            old(self)@.is_a(id, NodeKind::Memo) ==> exists|trace: Trace<T, R>|
                {
                    let r = #[trigger] replay_pull(
                        old(self)@,
                        *old(fns),
                        old(self).wake_requests(),
                        id,
                        usize::MAX as nat,
                        trace,
                    );
                    &&& r.fits
                    &&& r.requests == final(self).wake_requests()
                    &&& r.table == *final(fns)
                    &&& final(self)@ == r.after_read(id)
                    &&& outcome == r.read(id)
                    &&& forall|run: Run<T, R>| #[trigger] trace.holds(run) ==> exists|
                        table: &mut R,
                        during: &mut Runtime<T>,
                        node: usize,
                        previous: Option<T>,
                        value: T,
                    |
                        {
                            &&& #[trigger] call_ensures(R::run, (table, during, node, previous), value)
                            &&& node == run.node && previous == run.previous && value == run.value
                            &&& *table == run.table_before && *final(table) == run.table_after
                            &&& (*during)@ == run.before && (*final(during))@ == run.after
                            &&& (*during).wake_requests() == run.requests_before
                            &&& (*final(during)).wake_requests() == run.requests_after
                        }
                },
            final(self)@.observer == old(self)@.observer,
            !old(self)@.is_a(id, NodeKind::Memo) ==> {
                &&& outcome == Err::<T, ReactiveError>(ReactiveError::Disposed)
                &&& final(self)@ == old(self)@
                &&& *final(fns) == *old(fns)
            },
            old(self)@.is_a(id, NodeKind::Memo) && old(self)@.plan(id) == Pull::Busy ==> {
                &&& outcome == Err::<T, ReactiveError>(ReactiveError::Cycle)
                &&& final(self)@ == old(self)@
                &&& *final(fns) == *old(fns)
            },
            old(self)@.is_a(id, NodeKind::Memo) && old(self)@.plan(id) == Pull::Fresh ==> {
                &&& old(self)@.nodes[id as int].value matches Some(cached)
                &&& outcome == Ok::<T, ReactiveError>(cached)
                &&& final(self)@ == old(self)@.track(id)
                &&& *final(fns) == *old(fns)
            },
            old(self)@.is_a(id, NodeKind::Memo) && old(self)@.plan(id) == Pull::Unsure
                && old(self)@.sources_resolved(id) ==> {
                &&& old(self)@.nodes[id as int].value matches Some(cached)
                &&& outcome == Ok::<T, ReactiveError>(cached)
                &&& final(self)@ == old(self)@.asked(id).settle(id).track(id)
                &&& *final(fns) == *old(fns)
            },
            old(self)@.is_a(id, NodeKind::Memo) && old(self)@.plan(id) == Pull::Stale ==> exists|
                table: &mut R,
                during: &mut Runtime<T>,
                value: T,
            |
                {
                    &&& #[trigger] call_ensures(
                        R::run,
                        (table, during, id, old(self)@.nodes[id as int].value),
                        value,
                    )
                    &&& *table == *old(fns)
                    &&& *final(table) == *final(fns)
                    &&& (*during)@ == old(self)@.begin_run(id).with_observer(Some(AnySubscriber(id)))
                    &&& exists|changed: bool|
                        {
                            let ended = #[trigger] (*final(during))@.with_observer(
                                old(self)@.observer,
                            ).finish_run(id, value, changed);
                            let answered = (*final(during))@.is_running(id) && ended.is_a(
                                id,
                                NodeKind::Memo,
                            );
                            &&& final(self)@ == (if answered {
                                ended.track(id)
                            } else {
                                ended
                            })
                            &&& outcome == (if answered {
                                Ok::<T, ReactiveError>(value)
                            } else {
                                Err::<T, ReactiveError>(ReactiveError::Disposed)
                            })
                            &&& T::obeys_eq_spec() && (*final(during))@.is_running(id) ==> changed
                                == differs((*final(during))@.nodes[id as int].value, value)
                        }
                },
            outcome matches Ok(value) ==> final(self)@.is_a(id, NodeKind::Memo)
                && final(self)@.nodes[id as int].value == Some(value),
    {
        proof {
            use_type_invariant(&*self);
        }
        if !self.graph.is_a(id, NodeKind::Memo) {
            return Err(ReactiveError::Disposed);
        }
        match self.pull(fns, id, usize::MAX).0 {
            Err(e) => Err(e),
            Ok(_) => {
                proof {
                    use_type_invariant(&*self);
                    if old(self)@.plan(id) == Pull::Unsure {
                        old(self)@.lemma_asked(id);
                        old(self)@.asked(id).lemma_settle_wf(id);
                        assert(old(self)@.nodes[id as int].is_sound());
                    }
                }
                if !self.graph.is_a(id, NodeKind::Memo) {
                    return Err(ReactiveError::Disposed);
                }
                self.track(id);
                match self.graph.value_of(id) {
                    Some(value) => Ok(value),
                    None => Err(ReactiveError::Disposed),
                }
            },
        }
    }

    /// One run of effect `id`, as its task makes it on waking: the effect's
    /// old edges are dropped, its function runs with the effect as observer
    /// and `scope` as current scope, and what it returns is stored.
    ///
    /// The observer and the current scope are the same after the call as
    /// before it; should the function have left the runtime with fewer
    /// scopes than the one that was current, no scope is current.
    /// `Disposed` where `id` names no live effect: the task has nothing
    /// left to do.
    pub fn run_effect<R: Reactions<T>>(&mut self, fns: &mut R, id: usize, scope: usize) -> (outcome:
        Result<(), ReactiveError>) where T: Copy + PartialEq
        ensures
            old(self)@.is_a(id, NodeKind::Effect) ==> exists|run: Option<Run<T, R>>|
                {
                    let r = #[trigger] replay_run(
                        old(self)@.entered(scope),
                        *old(fns),
                        old(self).wake_requests(),
                        id,
                        run,
                    );
                    &&& r.fits
                    &&& r.table == *final(fns)
                    &&& r.requests == final(self).wake_requests()
                    &&& final(self)@ == r.graph.left(old(self)@.current_owner)
                    &&& outcome == (match r.outcome {
                        Ok(_) => Ok::<(), ReactiveError>(()),
                        Err(e) => Err(e),
                    })
                    &&& run matches Some(ran) ==> exists|
                        table: &mut R,
                        during: &mut Runtime<T>,
                        node: usize,
                        previous: Option<T>,
                        value: T,
                    |
                        {
                            &&& #[trigger] call_ensures(R::run, (table, during, node, previous), value)
                            &&& node == ran.node && previous == ran.previous && value == ran.value
                            &&& *table == ran.table_before && *final(table) == ran.table_after
                            &&& (*during)@ == ran.before && (*final(during))@ == ran.after
                            &&& (*during).wake_requests() == ran.requests_before
                            &&& (*final(during)).wake_requests() == ran.requests_after
                        }
                },
            final(self)@.observer == old(self)@.observer,
            final(self)@.current_owner == (if old(self)@.current_owner matches Some(o) && o
                >= final(self)@.owners.len() {
                None
            } else {
                old(self)@.current_owner
            }),
            !old(self)@.is_a(id, NodeKind::Effect) ==> {
                &&& outcome == Err::<(), ReactiveError>(ReactiveError::Disposed)
                &&& final(self)@ == old(self)@
                &&& *final(fns) == *old(fns)
            },
            old(self)@.is_a(id, NodeKind::Effect) && !old(self)@.can_run(id) ==> {
                &&& outcome == Err::<(), ReactiveError>(ReactiveError::Cycle)
                &&& final(self)@ == old(self)@
                &&& *final(fns) == *old(fns)
            },
            old(self)@.is_a(id, NodeKind::Effect) && old(self)@.can_run(id) ==> exists|
                table: &mut R,
                during: &mut Runtime<T>,
                value: T,
            |
                {
                    &&& #[trigger] call_ensures(
                        R::run,
                        (table, during, id, old(self)@.nodes[id as int].value),
                        value,
                    )
                    &&& *table == *old(fns)
                    &&& *final(table) == *final(fns)
                    &&& (*during)@ == (if scope < old(self)@.owners.len() {
                        old(self)@.with_current_owner(Some(scope))
                    } else {
                        old(self)@
                    }).begin_run(id).with_observer(Some(AnySubscriber(id)))
                    &&& outcome == (if (*final(during))@.is_running(id) {
                        Ok::<(), ReactiveError>(())
                    } else {
                        Err::<(), ReactiveError>(ReactiveError::Disposed)
                    })
                    &&& exists|changed: bool|
                        {
                            let ended = #[trigger] (*final(during))@.with_observer(
                                old(self)@.observer,
                            ).finish_run(id, value, changed);
                            final(self)@ == ended.with_current_owner(
                                if old(self)@.current_owner matches Some(o) && o >= ended.owners.len() {
                                    None
                                } else {
                                    old(self)@.current_owner
                                },
                            )
                        }
                },
            outcome is Ok ==> final(self)@.is_live(id) && final(self)@.nodes[id as int].value
                is Some,
    {
        proof {
            use_type_invariant(&*self);
        }
        if !self.graph.is_a(id, NodeKind::Effect) {
            return Err(ReactiveError::Disposed);
        }
        let outer = self.enter_owner(Some(scope));
        let ran = self.recompute(fns, id);
        let _inner = self.enter_owner(outer);
        proof {
            use_type_invariant(&*self);
        }
        if self.graph.current_owner != outer {
            // the scope that was current has been lost; fall back to none
            let _lost = self.enter_owner(None);
        }
        match ran {
            Ok(_) => Ok(()),
            Err(e) => Err(e),
        }
    }

    /// Runs the cleanups that were handed out under `tokens`, one after the
    /// other. Where there is none, no callback is made.
    ///
    /// The first cleanup is handed the graph as it was found, each one
    /// after it the graph as the one before left it, and the graph
    /// afterwards is what the last one left.
    pub fn run_cleanups<R: Reactions<T>>(&mut self, fns: &mut R, tokens: &Vec<usize>)
        ensures
            tokens@.len() == 0 ==> final(self)@ == old(self)@ && *final(fns) == *old(fns),
            exists|steps: Seq<Cleaned<T, R>>|
                {
                    &&& #[trigger] cleaning(
                        steps,
                        tokens@,
                        (Stand {
                            graph: old(self)@,
                            table: *old(fns),
                            requests: old(self).wake_requests(),
                        }),
                        (Stand {
                            graph: final(self)@,
                            table: *final(fns),
                            requests: final(self).wake_requests(),
                        }),
                    )
                    &&& forall|k: int|
                        0 <= k < steps.len() ==> exists|
                            table: &mut R,
                            during: &mut Runtime<T>,
                            token: usize,
                        |
                            {
                                &&& #[trigger] call_ensures(R::cleanup, (table, during, token), ())
                                &&& token == (#[trigger] steps[k]).token
                                &&& *table == steps[k].table_before && *final(table) == steps[k].table_after
                                &&& (*during)@ == steps[k].before && (*final(during))@ == steps[k].after
                                &&& (*during).wake_requests() == steps[k].requests_before
                                &&& (*final(during)).wake_requests() == steps[k].requests_after
                            }
                },
    {
        let ghost start = Stand {
            graph: self@,
            table: *fns,
            requests: self.wake_requests(),
        };
        let ghost mut steps: Seq<Cleaned<T, R>> = Seq::empty();
        let mut k: usize = 0;
        while k < tokens.len()
            invariant
                k <= tokens.len(),
                tokens.len() == 0 ==> self@ == old(self)@ && *fns == *old(fns),
                start == (Stand {
                    graph: old(self)@,
                    table: *old(fns),
                    requests: old(self).wake_requests(),
                }),
                cleaning(
                    steps,
                    tokens@.take(k as int),
                    start,
                    (Stand { graph: self@, table: *fns, requests: self.wake_requests() }),
                ),
                forall|j: int|
                    0 <= j < steps.len() ==> exists|
                        table: &mut R,
                        during: &mut Runtime<T>,
                        token: usize,
                    |
                        {
                            &&& #[trigger] call_ensures(R::cleanup, (table, during, token), ())
                            &&& token == (#[trigger] steps[j]).token
                            &&& *table == steps[j].table_before && *final(table) == steps[j].table_after
                            &&& (*during)@ == steps[j].before && (*final(during))@ == steps[j].after
                            &&& (*during).wake_requests() == steps[j].requests_before
                            &&& (*final(during)).wake_requests() == steps[j].requests_after
                        },
            decreases tokens.len() - k,
        {
            let ghost before = self@;
            let ghost table_was = *fns;
            let ghost requests_were = self.wake_requests();
            let ghost steps_were = steps;
            fns.cleanup(self, tokens[k]);
            proof {
                let step = Cleaned {
                    token: tokens@[k as int],
                    table_before: table_was,
                    table_after: *fns,
                    before,
                    after: self@,
                    requests_before: requests_were,
                    requests_after: self.wake_requests(),
                };
                steps = steps_were.push(step);
                assert(tokens@.take(k + 1) =~= tokens@.take(k as int).push(tokens@[k as int]));
                assert forall|j: int| 0 <= j < steps.len() implies {
                    &&& (#[trigger] steps[j]).token == tokens@.take(k + 1)[j]
                    &&& steps[j].before == stand_before(steps, j, start).graph
                    &&& steps[j].table_before == stand_before(steps, j, start).table
                    &&& steps[j].requests_before == stand_before(steps, j, start).requests
                } by {
                    if j < k {
                        assert(steps[j] == steps_were[j]);
                        assert(stand_before(steps, j, start) == stand_before(steps_were, j, start));
                    }
                }
                assert forall|j: int|
                    0 <= j < steps.len() implies exists|
                        table: &mut R,
                        during: &mut Runtime<T>,
                        token: usize,
                    |
                        {
                            &&& #[trigger] call_ensures(R::cleanup, (table, during, token), ())
                            &&& token == (#[trigger] steps[j]).token
                            &&& *table == steps[j].table_before && *final(table) == steps[j].table_after
                            &&& (*during)@ == steps[j].before && (*final(during))@ == steps[j].after
                            &&& (*during).wake_requests() == steps[j].requests_before
                            &&& (*final(during)).wake_requests() == steps[j].requests_after
                        } by {
                    if j < k {
                        assert(steps[j] == steps_were[j]);
                    }
                }
            }
            k += 1;
        }
        proof {
            assert(tokens@.take(tokens.len() as int) =~= tokens@);
        }
    }

    /// Disposes `root` and everything below it, then runs the cleanups that
    /// were registered there, each once, in the order they were registered.
    /// Where none is due, no callback is made.
    ///
    /// The first cleanup is handed the graph as the disposal leaves it,
    /// each one after it the graph as the one before left it, and the
    /// graph afterwards is what the last one left.
    pub fn dispose_and_clean<R: Reactions<T>>(&mut self, fns: &mut R, root: usize)
        ensures
            (forall|token: usize| !old(self)@.due(root, token)) ==> {
                &&& final(self)@ == old(self)@.dispose_owner(root)
                &&& *final(fns) == *old(fns)
            },
            exists|tokens: Seq<usize>, steps: Seq<Cleaned<T, R>>|
                {
                    &&& old(self)@.is_due_list(root, tokens)
                    &&& #[trigger] cleaning(
                        steps,
                        tokens,
                        (Stand {
                            graph: old(self)@.dispose_owner(root),
                            table: *old(fns),
                            requests: old(self).wake_requests(),
                        }),
                        (Stand {
                            graph: final(self)@,
                            table: *final(fns),
                            requests: final(self).wake_requests(),
                        }),
                    )
                    &&& forall|k: int|
                        0 <= k < steps.len() ==> exists|
                            table: &mut R,
                            during: &mut Runtime<T>,
                            token: usize,
                        |
                            {
                                &&& #[trigger] call_ensures(R::cleanup, (table, during, token), ())
                                &&& token == (#[trigger] steps[k]).token
                                &&& *table == steps[k].table_before && *final(table) == steps[k].table_after
                                &&& (*during)@ == steps[k].before && (*final(during))@ == steps[k].after
                                &&& (*during).wake_requests() == steps[k].requests_before
                                &&& (*final(during)).wake_requests() == steps[k].requests_after
                            }
                },
    {
        let tokens = self.dispose_owner(root);
        proof {
            if tokens.len() > 0 {
                assert(tokens@.contains(tokens@[0]));
            }
        }
        self.run_cleanups(fns, &tokens);
    }

    /// What a pull has to do with `id`.
    pub fn plan(&self, id: usize) -> (pull: Pull)
        ensures
            pull == self@.plan(id),
    {
        self.graph.plan(id)
    }

    /// Whether `id` names a live slot of the given kind.
    pub fn is_a(&self, id: usize, kind: NodeKind) -> (yes: bool)
        ensures
            yes == self@.is_a(id, kind),
    {
        self.graph.is_a(id, kind)
    }

    /// The state of a live node.
    pub fn state_of(&self, id: usize) -> (state: Option<ReactiveNodeState>)
        ensures
            state == (if self@.is_live(id) {
                Some(self@.nodes[id as int].state)
            } else {
                None
            }),
    {
        self.graph.state_of(id)
    }

    /// Applies `fun` to the cached value of a live node, without tracking
    /// the read. `None` where there is no value to apply it to.
    pub fn with_value<U, F: FnOnce(&T) -> U>(&self, id: usize, fun: F) -> (out: Option<U>)
        requires
            forall|v: &T| call_requires(fun, (v,)),
        ensures
            match (if self@.is_live(id) {
                self@.nodes[id as int].value
            } else {
                None
            }) {
                Some(v) => out matches Some(u) && call_ensures(fun, (&v,), u),
                None => out is None,
            },
    {
        self.graph.with_value(id, fun)
    }

    /// The cached value of a live node, without tracking the read.
    pub fn peek(&self, id: usize) -> (value: Option<T>) where T: Copy
        ensures
            value == (if self@.is_live(id) {
                self@.nodes[id as int].value
            } else {
                None
            }),
    {
        self.graph.value_of(id)
    }
}

/// Asks the effect in slot `id`, if there is one, for a re-run.
///
/// The table keeps its length, slot `id` holds a channel exactly if it did
/// before, and every other slot holds what it held. Of the wake-up itself
/// nothing is known here: whether it is taken is the channel's affair.
fn wake_slot(notifiers: &mut Vec<Option<NotificationSender>>, id: usize)
    requires
        id < old(notifiers).len(),
    ensures
        final(notifiers).len() == old(notifiers).len(),
        final(notifiers)@[id as int] is Some <==> old(notifiers)@[id as int] is Some,
        forall|i: int|
            0 <= i < old(notifiers).len() && i != id ==> #[trigger] final(notifiers)@[i] == old(notifiers)@[i],
{
    match &mut notifiers[id] {
        Some(tx) => tx.notify(),
        None => {},
    }
}

} // verus!
