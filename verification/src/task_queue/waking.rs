//! The wake-ups that an event loop sends itself.
use crate::task_queue::TaskMessage;
use crossbeam_channel::Sender;
use vstd::prelude::*;

verus! {

/// The end of a channel that messages are sent from.
#[verifier::external_type_specification]
#[verifier::external_body]
#[verifier::reject_recursive_types(T)]
pub struct ExSender<T>(crossbeam_channel::Sender<T>);

/// Sends a message, by `crossbeam_channel::Sender::send`, which hands it back where no receiver is
/// left; it is dropped then.
#[verifier::external_body]
fn send<P>(sender: &Sender<TaskMessage<P>>, message: TaskMessage<P>) {
    let _ = sender.send(message);
}

/// Stands for a wake-up that was sent: only [`wake`] makes one.
#[derive(Debug)]
pub struct SentWakeUp {
    sent: (),
}

/// Wakes an event loop.
pub(crate) fn wake<P>(sender: &Sender<TaskMessage<P>>) -> (wake_up: SentWakeUp) {
    send(sender, TaskMessage::WakeUp);
    SentWakeUp { sent: () }
}

} // verus!
