//! The election timer of a node.

use rand::rngs::SmallRng;
use rand::{Rng, SeedableRng};
use tokio::sync::oneshot;
use vstd::prelude::*;

verus! {

/// The sending half of a one-shot channel. Verus sees nothing inside it.
#[verifier::external_type_specification]
#[verifier::external_body]
#[verifier::reject_recursive_types(T)]
pub struct ExOneshotSender<T>(oneshot::Sender<T>);

/// The receiving half of a one-shot channel. Verus sees nothing inside it.
#[verifier::external_type_specification]
#[verifier::external_body]
#[verifier::reject_recursive_types(T)]
pub struct ExOneshotReceiver<T>(oneshot::Receiver<T>);

/// The error that awaiting the receiving half can give. It belongs to the type of
/// the receiver; nothing here waits for one.
#[verifier::external_type_specification]
#[verifier::external_body]
pub struct ExOneshotRecvError(oneshot::error::RecvError);

/// Calls `tokio::sync::oneshot::channel`, which makes both halves from one shared
/// state: what the first one sends, the second one receives. The halves are opaque,
/// so no clause speaks of what is inside them. That two halves belong together is
/// expressed by their being the result of one call; see
/// [`ElectionTimer::notifies`].
#[verifier::external_body]
fn cancel_channel() -> (r: (oneshot::Sender<()>, oneshot::Receiver<()>)) {
    oneshot::channel()
}

/// Calls `tokio::sync::oneshot::Sender::send`, which wakes the receiver if there
/// still is one. Nothing is claimed of the effect: it lies in the receiver, which
/// the call neither takes nor returns. That a sender was handed to this call is
/// expressed by [`ElectionTimer::signalled`].
#[verifier::external_body]
fn notify(sender: oneshot::Sender<()>) {
    let _ = sender.send(());
}

/// Calls `rand::Rng::gen_range` on a `SmallRng` that was seeded from
/// `rand::thread_rng`, and claims that the number lies in the range that was
/// asked for. An empty range would panic.
#[verifier::external_body]
#[allow(deprecated)]
fn random_in_range(min: u64, max: u64) -> (r: u64)
    requires
        min <= max,
    ensures
        min <= r <= max,
{
    let mut thread_rng = rand::thread_rng();
    let mut rng = SmallRng::from_rng(&mut thread_rng);
    rng.gen_range(min..=max)
}

/// Whether `duration` is a timeout that may be drawn for the bounds `min` and
/// `max`: any number from `min` to `max`, or `min` when the bounds leave no room.
pub open spec fn timeout_in_bounds(duration: u64, min: u64, max: u64) -> bool {
    if max <= min {
        duration == min
    } else {
        min <= duration <= max
    }
}

/// The timer that starts an election when a node hears nothing for too long.
///
/// The timer does not sleep by itself. Whoever resets it gets a receiver that is
/// notified when the timer is reset or cancelled before it has expired.
#[derive(Debug)]
pub struct ElectionTimer {
    duration_ms: u64,
    reset_tx: Option<oneshot::Sender<()>>,
}

impl ElectionTimer {
    /// The current timeout in milliseconds.
    pub closed spec fn duration(&self) -> u64 {
        self.duration_ms
    }

    /// Whether the timer is running.
    pub closed spec fn armed(&self) -> bool {
        self.reset_tx is Some
    }

    /// Whether `receiver` is the one that is notified when the running timer ends
    /// early: the timer holds the sending half of its channel.
    pub closed spec fn notifies(&self, receiver: oneshot::Receiver<()>) -> bool {
        self.reset_tx matches Some(sender) && call_ensures(
            cancel_channel,
            (),
            (sender, receiver),
        )
    }

    /// Whether the timer runs and its sender was handed to [`notify`]. This fixes what
    /// the call was given; it does not speak of the state of the opaque receiver.
    pub closed spec fn signalled(&self) -> bool {
        self.reset_tx matches Some(sender) && call_ensures(notify, (sender,), ())
    }

    /// Whether this timer has been brought to an end: if it was running, its signal
    /// was sent.
    pub open spec fn ended(&self) -> bool {
        self.armed() ==> self.signalled()
    }

    /// Draws a timeout between `min` and `max`, both included.
    pub fn rand_range(min: u64, max: u64) -> (r: u64)
        ensures
            timeout_in_bounds(r, min, max),
    {
        if max <= min {
            return min;
        }
        random_in_range(min, max)
    }

    /// Cancels the running timer, if any, and starts a new one with a fresh random
    /// timeout. Returns the receiver that is notified when the new timer ends
    /// early, and the new timeout.
    pub fn reset(&mut self, min_ms: u64, max_ms: u64) -> (r: (oneshot::Receiver<()>, u64))
        ensures
            old(self).ended(),
            final(self).armed(),
            final(self).notifies(r.0),
            final(self).duration() == r.1,
            timeout_in_bounds(r.1, min_ms, max_ms),
    {
        self.cancel();
        let new_duration: u64 = ElectionTimer::rand_range(min_ms, max_ms);
        self.duration_ms = new_duration;
        let (tx, rx) = cancel_channel();
        self.reset_tx = Some(tx);
        (rx, new_duration)
    }

    /// Cancels the running timer, if any, without starting a new one.
    pub fn cancel(&mut self)
        ensures
            old(self).ended(),
            !final(self).armed(),
            final(self).duration() == old(self).duration(),
    {
        if let Some(tx) = self.reset_tx.take() {
            notify(tx);
        }
    }

    /// Whether the timer is running.
    pub fn is_armed(&self) -> (r: bool)
        ensures
            r == self.armed(),
    {
        self.reset_tx.is_some()
    }

    /// The current timeout in milliseconds.
    pub fn duration_ms(&self) -> (r: u64)
        ensures
            r == self.duration(),
    {
        self.duration_ms
    }
}

/// Whether the sending half of the channel of `receiver` was handed to [`notify`].
pub closed spec fn notified(receiver: oneshot::Receiver<()>) -> bool {
    exists|sender: oneshot::Sender<()>|
        call_ensures(cancel_channel, (), (sender, receiver)) && #[trigger] call_ensures(
            notify,
            (sender,),
            (),
        )
}

/// Whoever waits for a timer is notified when the timer ends early: once a timer was
/// reset or cancelled, the signal was sent to the receiver that the timer notifies.
pub proof fn law_ended_timer_has_notified(timer: ElectionTimer, receiver: oneshot::Receiver<()>)
    requires
        timer.notifies(receiver),
        timer.ended(),
    ensures
        notified(receiver),
{
}

impl Default for ElectionTimer {
    /// A timer that is not running.
    fn default() -> (r: ElectionTimer)
        ensures
            r.duration() == 0,
            !r.armed(),
    {
        ElectionTimer { duration_ms: 0, reset_tx: None }
    }
}

/// What is said of a timer speaks of what it holds: it runs exactly if it holds a
/// sender, it was signalled exactly if that sender was handed to [`notify`], and the
/// receiver that it notifies is the one that came out of one call with that sender.
proof fn law_timer_is_its_sender(timer: ElectionTimer, receiver: oneshot::Receiver<()>)
    ensures
        timer.armed() <==> timer.reset_tx is Some,
        timer.duration() == timer.duration_ms,
        timer.signalled() <==> timer.reset_tx is Some && call_ensures(
            notify,
            (timer.reset_tx->Some_0,),
            (),
        ),
        timer.notifies(receiver) <==> timer.reset_tx is Some && call_ensures(
            cancel_channel,
            (),
            (timer.reset_tx->Some_0, receiver),
        ),
{
}

/// A reset hands the sender that the timer held to [`notify`], and leaves the timer
/// with the sender that came out of one call with the receiver that it returns.
proof fn law_reset_signals(
    before: ElectionTimer,
    after: ElectionTimer,
    min: u64,
    max: u64,
    r: (oneshot::Receiver<()>, u64),
)
    requires
        exists|t: &mut ElectionTimer|
            *t == before && *final(t) == after && #[trigger] call_ensures(
                ElectionTimer::reset,
                (t, min, max),
                r,
            ),
    ensures
        before.reset_tx matches Some(sender) ==> call_ensures(notify, (sender,), ()),
        after.reset_tx matches Some(sender) && call_ensures(cancel_channel, (), (sender, r.0)),
        after.duration_ms == r.1,
{
}

/// A cancellation hands the sender that the timer held to [`notify`], and leaves the
/// timer without one.
proof fn law_cancel_signals(before: ElectionTimer, after: ElectionTimer)
    requires
        exists|t: &mut ElectionTimer|
            *t == before && *final(t) == after && #[trigger] call_ensures(
                ElectionTimer::cancel,
                (t,),
                (),
            ),
    ensures
        before.reset_tx matches Some(sender) ==> call_ensures(notify, (sender,), ()),
        after.reset_tx is None,
        after.duration_ms == before.duration_ms,
{
}

} // verus!
