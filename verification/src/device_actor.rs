//! What a device socket does on each event: forward packets, and stop the
//! device once it has been silent for the timeout.
use vstd::prelude::*;

verus! {

/// What can happen to a device socket that runs on its own task.
#[derive(Debug, Clone, Copy, PartialEq, Eq, Structural)]
pub enum DeviceEvent {
    /// A packet for the device arrived on its channel.
    Packet(i32),
    /// The timeout elapsed without a packet.
    Tick,
    /// The channel has no senders left.
    Closed,
}

/// What the device socket does in answer: the payload to send, if any, and
/// whether the timeout starts over.
#[derive(Debug, Clone, Copy, PartialEq, Eq, Structural)]
pub struct DeviceCommand {
    pub send: Option<i32>,
    pub reset_timer: bool,
}

/// The answer to `event`: a packet is sent on unchanged and restarts the
/// timeout; a timeout sends 0, which stops the device; a closed channel
/// asks for nothing.
pub fn on_device_event(event: DeviceEvent) -> (r: DeviceCommand)
    ensures
        event is Packet ==> r == (DeviceCommand { send: Some(event->Packet_0), reset_timer: true }),
        event == DeviceEvent::Tick ==> r == (DeviceCommand { send: Some(0), reset_timer: false }),
        event == DeviceEvent::Closed ==> r == (DeviceCommand { send: None, reset_timer: false }),
{
    match event {
        DeviceEvent::Packet(p) => DeviceCommand { send: Some(p), reset_timer: true },
        DeviceEvent::Tick => DeviceCommand { send: Some(0), reset_timer: false },
        DeviceEvent::Closed => DeviceCommand { send: None, reset_timer: false },
    }
}

/// The stop timer of a device socket that arms a fresh timer on each send.
#[derive(Debug, Clone, Copy, PartialEq, Eq, Structural)]
pub struct StopTimer {
    /// A timer task has been started and not yet replaced.
    pub armed: bool,
}

/// What to do with the timers when a packet is sent.
#[derive(Debug, Clone, Copy, PartialEq, Eq, Structural)]
pub struct TimerOrder {
    /// Abort the timer started before.
    pub abort_previous: bool,
    /// Start a timer that sends 0 after the timeout.
    pub start_new: bool,
}

impl StopTimer {
    /// No timer started yet.
    pub fn new() -> (r: StopTimer)
        ensures
            !r.armed,
    {
        StopTimer { armed: false }
    }

    /// A packet is about to be sent: the previous timer, if any, is aborted
    /// and a new one started, so that only the last send's timer can fire.
    pub fn on_send(&mut self) -> (r: TimerOrder)
        ensures
            r == (TimerOrder { abort_previous: old(self).armed, start_new: true }),
            final(self).armed,
    {
        let abort_previous = self.armed;
        self.armed = true;
        TimerOrder { abort_previous, start_new: true }
    }
}

} // verus!
