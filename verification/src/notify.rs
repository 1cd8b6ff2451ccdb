//! The wake-up channel between the graph and an effect's task.

use crate::replay::{cleaning, Cleaned, Stand};
use crate::runtime::{Reactions, Runtime};
use futures::channel::mpsc::{Receiver, Sender};
use vstd::prelude::*;

verus! {

#[verifier::external_type_specification]
#[verifier::external_body]
#[verifier::reject_recursive_types(T)]
pub struct ExSender<T>(Sender<T>);

#[verifier::external_type_specification]
#[verifier::external_body]
#[verifier::reject_recursive_types(T)]
pub struct ExReceiver<T>(Receiver<T>);

/// Calls `futures::channel::mpsc::channel::<()>(0)`: a channel with no
/// room beyond the one message that every sender may have under way.
///
/// Nothing is claimed of the two halves: what a channel holds is shared
/// with whoever polls the receiver.
#[verifier::external_body]
fn wakeup_channel() -> (halves: (Sender<()>, Receiver<()>)) {
    futures::channel::mpsc::channel::<()>(0)
}

/// Calls `Sender::try_send` with the unit message and reports whether the
/// message was taken.
///
/// Nothing is claimed of the outcome: it depends on how far the receiving
/// task has drained the channel.
#[verifier::external_body]
fn try_send_wakeup(tx: &mut Sender<()>) -> (sent: bool) {
    tx.try_send(()).is_ok()
}

/// Calls `Sender::same_receiver`, which compares the channels that two
/// senders feed by address.
#[verifier::external_body]
fn same_channel(a: &Sender<()>, b: &Sender<()>) -> (same: bool) {
    a.same_receiver(b)
}

/// The sending half of an effect's wake-up channel.
///
/// The channel coalesces: a wake-up sent while earlier ones are still
/// waiting may be dropped, and the effect then runs once for all of them.
pub struct NotificationSender(Sender<()>);

impl NotificationSender {
    /// A fresh channel: the sender, and the receiver that the effect's task
    /// waits on.
    pub fn channel() -> (halves: (NotificationSender, Receiver<()>)) {
        let (tx, rx) = wakeup_channel();
        (NotificationSender(tx), rx)
    }

    /// Asks for a re-run. Never blocks. A wake-up that the channel has no
    /// room for is dropped: one that is already waiting will do.
    pub fn notify(&mut self) {
        let _sent = try_send_wakeup(&mut self.0);
    }

    /// Whether both senders wake the same task.
    pub fn same_receiver(&self, other: &NotificationSender) -> (same: bool) {
        same_channel(&self.0, &other.0)
    }
}

/// What a subscriber set keeps of an effect: the means to wake it, and the
/// cleanups that take the effect out of the sets it has been put into.
pub struct EffectNotifier {
    tx: NotificationSender,
    removers: Vec<usize>,
}

impl EffectNotifier {
    /// The cleanups that have been registered and not run yet, oldest
    /// first.
    pub closed spec fn removers(&self) -> Seq<usize> {
        self.removers@
    }

    /// The sending half of the effect's wake-up channel.
    pub closed spec fn sender(&self) -> NotificationSender {
        self.tx
    }

    /// A notifier with a fresh channel and no cleanups, and the receiver
    /// that the effect's task waits on.
    pub fn new() -> (made: (EffectNotifier, Receiver<()>))
        ensures
            made.0.removers().len() == 0,
    {
        let (tx, rx) = NotificationSender::channel();
        (EffectNotifier { tx, removers: Vec::new() }, rx)
    }

    /// Asks the effect for a re-run. Never blocks; see
    /// [`NotificationSender::notify`].
    pub fn notify(&mut self)
        ensures
            final(self).removers() == old(self).removers(),
    {
        self.tx.notify();
    }

    /// Whether both notifiers wake the same effect.
    pub fn same_effect(&self, other: &EffectNotifier) -> (same: bool) {
        self.tx.same_receiver(&other.tx)
    }

    /// Registers the cleanup that the runtime handed out under `token`.
    pub fn add_remover(&mut self, token: usize)
        ensures
            final(self).removers() == old(self).removers().push(token),
            final(self).sender() == old(self).sender(),
    {
        self.removers.push(token);
    }

    /// Runs every registered cleanup, oldest first, and forgets them all:
    /// none runs a second time. Where none is registered, no callback is
    /// made.
    ///
    /// The first cleanup is handed the graph as it was found, each one
    /// after it the graph as the one before left it, and the graph
    /// afterwards is what the last one left. The notifier's own channel is
    /// not touched.
    pub fn cleanup<T, R: Reactions<T>>(&mut self, rt: &mut Runtime<T>, fns: &mut R)
        ensures
            final(self).removers().len() == 0,
            final(self).sender() == old(self).sender(),
            old(self).removers().len() == 0 ==> final(rt)@ == old(rt)@ && *final(fns) == *old(fns),
            exists|steps: Seq<Cleaned<T, R>>|
                {
                    &&& #[trigger] cleaning(
                        steps,
                        old(self).removers(),
                        (Stand {
                            graph: old(rt)@,
                            table: *old(fns),
                            requests: old(rt).wake_requests(),
                        }),
                        (Stand {
                            graph: final(rt)@,
                            table: *final(fns),
                            requests: final(rt).wake_requests(),
                        }),
                    )
                    &&& forall|k: int|
                        0 <= k < steps.len() ==> exists|
                            table: &mut R,
                            during: &mut Runtime<T>,
                            token: usize,
                        |
                            {
                                &&& #[trigger] call_ensures(R::cleanup, (table, during, token), ())
                                &&& token == (#[trigger] steps[k]).token
                                &&& *table == steps[k].table_before && *final(table) == steps[k].table_after
                                &&& (*during)@ == steps[k].before && (*final(during))@ == steps[k].after
                                &&& (*during).wake_requests() == steps[k].requests_before
                                &&& (*final(during)).wake_requests() == steps[k].requests_after
                            }
                },
    {
        let mut due: Vec<usize> = Vec::new();
        std::mem::swap(&mut due, &mut self.removers);
        proof {
            assert(due@ =~= old(self).removers());
        }
        rt.run_cleanups(fns, &due);
    }
}

} // verus!
