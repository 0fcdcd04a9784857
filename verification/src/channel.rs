//! The bounded channel from the filesystem-watcher callback into the event
//! stream, and the drop tracking around it: a send never blocks, a
//! notification that finds the queue full is discarded, and the next
//! delivered notification truthfully carries `dropped = true` for the gap.

use vstd::prelude::*;
use futures_channel::mpsc::{Receiver, Sender};
use crate::encoder::{encode_change_event, ChangeEvent};
use crate::path_filter::{filter_paths, lemma_all_noise_filters_to_nothing, spec_filter_paths,
    spec_is_noise};

verus! {

#[verifier::external_type_specification]
#[verifier::external_body]
#[verifier::reject_recursive_types(T)]
pub struct ExSender<T>(Sender<T>);

#[verifier::external_type_specification]
#[verifier::external_body]
#[verifier::reject_recursive_types(T)]
pub struct ExReceiver<T>(Receiver<T>);

/// How a non-blocking send ended.
#[derive(Clone, Copy, Debug, PartialEq, Eq, Structural)]
pub enum SendOutcome {
    /// The message was queued for the consumer.
    Sent,
    /// The queue was full; the message was discarded.
    Full,
    /// The consumer is gone; sending is pointless from now on.
    Disconnected,
    /// The send failed in some other way.
    Failed,
}

/// Relies on `futures_channel::mpsc::channel`: a bounded channel whose queue
/// holds `buffer` messages beyond the sender's guaranteed slot. The call
/// rejects absurdly large buffers, so only small ones are allowed here.
#[verifier::external_body]
fn make_channel(buffer: usize) -> (r: (Sender<String>, Receiver<String>))
    requires
        buffer <= 4096,
{
    futures_channel::mpsc::channel(buffer)
}

/// Relies on `Sender::try_send` and on `TrySendError::is_full` and
/// `TrySendError::is_disconnected`: the send never blocks, and on failure
/// the error tells a full queue apart from a gone consumer. Which outcome
/// comes back depends on the concurrent consumer, so nothing is promised of
/// it; callers must handle every outcome.
#[verifier::external_body]
fn try_send_payload(tx: &mut Sender<String>, payload: String) -> (o: SendOutcome) {
    match tx.try_send(payload) {
        Ok(()) => SendOutcome::Sent,
        Err(e) => if e.is_full() {
            SendOutcome::Full
        } else if e.is_disconnected() {
            SendOutcome::Disconnected
        } else {
            SendOutcome::Failed
        },
    }
}

/// The dropped flag after a send attempt: cleared by a delivery, set by a
/// full queue, and untouched when the consumer is gone or the send failed
/// otherwise (those are not capacity losses).
pub open spec fn spec_next_dropped(d: bool, o: SendOutcome) -> bool {
    match o {
        SendOutcome::Sent => false,
        SendOutcome::Full => true,
        SendOutcome::Disconnected => d,
        SendOutcome::Failed => d,
    }
}

/// The producer side of the notification channel, with the flag that
/// records whether a notification was lost since the last delivered one.
pub struct DropTrackingChannel {
    tx: Sender<String>,
    dropped: bool,
}

impl DropTrackingChannel {
    /// Whether a notification has been lost to capacity since the last
    /// delivered one.
    pub closed spec fn spec_dropped(self) -> bool {
        self.dropped
    }

    /// Open a notification channel with the given buffered capacity: the
    /// producer side with a clear flag, and the consumer's receiver.
    pub fn open(buffer: usize) -> (r: (DropTrackingChannel, Receiver<String>))
        requires
            buffer <= 4096,
        ensures
            !r.0.spec_dropped(),
    {
        let (tx, rx) = make_channel(buffer);
        (DropTrackingChannel { tx, dropped: false }, rx)
    }

    /// The notification a raw change event produces in the current state:
    /// nothing when every path is noise, else the kept paths together with
    /// the current dropped flag.
    pub fn prepare(&self, paths: &Vec<String>) -> (r: Option<ChangeEvent>)
        ensures
            match r {
                Option::None => spec_filter_paths(paths.deep_view()).len() == 0,
                Option::Some(ev) => {
                    &&& spec_filter_paths(paths.deep_view()).len() > 0
                    &&& ev.paths.deep_view() == spec_filter_paths(paths.deep_view())
                    &&& ev.dropped == self.spec_dropped()
                },
            },
    {
        let kept = filter_paths(paths);
        proof {
            assert(kept.deep_view().len() == kept@.len());
        }
        if kept.len() == 0 {
            None
        } else {
            Some(ChangeEvent { paths: kept, dropped: self.dropped })
        }
    }

    /// Encode a notification and try to queue it without blocking. Whatever
    /// the concurrent consumer makes the outcome, the flag moves as
    /// `spec_next_dropped` says: a delivery clears it, a full queue sets it.
    pub fn send_event(&mut self, ev: &ChangeEvent) -> (o: SendOutcome)
        ensures
            final(self).spec_dropped() == spec_next_dropped(old(self).spec_dropped(), o),
    {
        let payload = encode_change_event(ev);
        let o = try_send_payload(&mut self.tx, payload);
        match o {
            SendOutcome::Sent => {
                self.dropped = false;
            },
            SendOutcome::Full => {
                self.dropped = true;
            },
            SendOutcome::Disconnected => {},
            SendOutcome::Failed => {},
        }
        o
    }

    /// Handle one raw change notification end to end: filter its paths,
    /// and — unless everything was noise, in which case nothing at all is
    /// sent and the state is untouched — encode the kept paths with the
    /// current dropped flag and try to queue the message.
    pub fn publish_changes(&mut self, paths: &Vec<String>) -> (o: Option<SendOutcome>)
        ensures
            match o {
                Option::None => {
                    &&& spec_filter_paths(paths.deep_view()).len() == 0
                    &&& *final(self) == *old(self)
                },
                Option::Some(so) => {
                    &&& spec_filter_paths(paths.deep_view()).len() > 0
                    &&& final(self).spec_dropped() == spec_next_dropped(
                        old(self).spec_dropped(),
                        so,
                    )
                },
            },
    {
        match self.prepare(paths) {
            None => None,
            Some(ev) => Some(self.send_event(&ev)),
        }
    }
}

/// A raw notification whose paths are all noise produces no event: the
/// filter leaves nothing, so `publish_changes` queues nothing and leaves
/// the channel state untouched.
pub proof fn lemma_all_noise_suppressed(paths: Seq<Seq<char>>)
    requires
        forall|j: int| 0 <= j < paths.len() ==> spec_is_noise(#[trigger] paths[j]),
    ensures
        spec_filter_paths(paths).len() == 0,
{
    lemma_all_noise_filters_to_nothing(paths);
}

/// Drop tracking across consecutive send attempts: a send that fails for
/// want of room sets the flag, so the next prepared notification carries
/// `dropped = true`; once a notification is delivered the flag clears, so
/// the one prepared after it carries `dropped = false`. A gone consumer
/// changes nothing.
pub proof fn lemma_drop_tracking(d: bool)
    ensures
        spec_next_dropped(d, SendOutcome::Full) == true,
        spec_next_dropped(true, SendOutcome::Sent) == false,
        spec_next_dropped(d, SendOutcome::Sent) == false,
        spec_next_dropped(d, SendOutcome::Disconnected) == d,
{
}

} // verus!
