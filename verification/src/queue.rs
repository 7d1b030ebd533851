//! The message queue that serialises OSC messages and Twitch requests: a
//! Twitch request takes over the first device for its duration, and OSC
//! messages are dropped until it ends.
use vstd::prelude::*;
use crate::config::Config;

verus! {

/// Pulses sent per second of a Twitch request (one every 500 ms).
pub const PULSES_PER_SECOND: usize = 2;

/// A Twitch request: how many seconds to run and the power to send.
#[derive(Debug, Clone, Copy, PartialEq, Eq, Structural)]
pub struct TwitchCommand {
    pub duration: usize,
    pub power: i32,
}

/// A message on the queue.
#[derive(Debug, Clone, Copy, PartialEq, Eq, Structural)]
pub enum QueueEvent {
    /// An OSC packet arrived.
    FromOsc,
    /// A Twitch request arrived.
    FromTwitch(TwitchCommand),
    /// The running Twitch request has finished.
    OnTwitchEnd,
}

/// The kinds of answer of the queue handler.
#[derive(Debug, Clone, Copy, PartialEq, Eq, Structural)]
pub enum ActionKind {
    HandleOsc,
    Drop,
    StartTwitch,
    Resume,
}

/// A Twitch request in progress: the device it drives, the power, the
/// whole seconds still to run, and whether the second pulse of the current
/// second is still to send.
#[derive(Debug)]
pub struct TwitchRun {
    pub device: String,
    pub power: i32,
    pub seconds_left: usize,
    pub half_pending: bool,
}

impl TwitchRun {
    /// The pulses this run still sends: two per second left, and one more
    /// while the second half of a second is pending.
    pub open spec fn pulses_left(self) -> nat {
        (self.seconds_left * PULSES_PER_SECOND + if self.half_pending {
            1int
        } else {
            0int
        }) as nat
    }
}

/// The queue handler's answer to one message.
#[derive(Debug)]
pub enum QueueAction {
    /// Handle the OSC packet.
    HandleOsc,
    /// Drop the message.
    Drop,
    /// Start the Twitch run on its own task.
    StartTwitch(TwitchRun),
    /// OSC handling resumes.
    Resume,
}

impl QueueAction {
    /// The kind of this answer.
    pub open spec fn kind(self) -> ActionKind {
        match self {
            QueueAction::HandleOsc => ActionKind::HandleOsc,
            QueueAction::Drop => ActionKind::Drop,
            QueueAction::StartTwitch(_) => ActionKind::StartTwitch,
            QueueAction::Resume => ActionKind::Resume,
        }
    }
}

/// One step of the queue handler: from whether a Twitch run is active and
/// a message, whether one is active afterwards and the kind of answer.
pub open spec fn spec_step(interrupt: bool, event: QueueEvent) -> (bool, ActionKind) {
    match event {
        QueueEvent::FromOsc => if interrupt {
            (true, ActionKind::Drop)
        } else {
            (false, ActionKind::HandleOsc)
        },
        QueueEvent::FromTwitch(_) => if interrupt {
            (true, ActionKind::Drop)
        } else {
            (true, ActionKind::StartTwitch)
        },
        QueueEvent::OnTwitchEnd => (false, ActionKind::Resume),
    }
}

/// The handler's state and answers after a sequence of messages.
pub open spec fn spec_run(interrupt: bool, events: Seq<QueueEvent>) -> (bool, Seq<ActionKind>)
    decreases events.len(),
{
    if events.len() == 0 {
        (interrupt, Seq::empty())
    } else {
        let (state, actions) = spec_run(interrupt, events.drop_last());
        let (next, action) = spec_step(state, events.last());
        (next, actions.push(action))
    }
}

/// How many answers of `actions` start a Twitch run.
pub open spec fn count_starts(actions: Seq<ActionKind>) -> nat
    decreases actions.len(),
{
    if actions.len() == 0 {
        0
    } else {
        count_starts(actions.drop_last()) + if actions.last() == ActionKind::StartTwitch {
            1nat
        } else {
            0nat
        }
    }
}

/// Whether a sequence of messages holds no end of a Twitch run.
pub open spec fn no_twitch_end(events: Seq<QueueEvent>) -> bool {
    forall|i: int| 0 <= i < events.len() ==> events[i] != QueueEvent::OnTwitchEnd
}

/// While a Twitch run is active and it has not ended, every message is
/// dropped and the run stays active.
pub proof fn lemma_active_run_drops_everything(events: Seq<QueueEvent>)
    requires
        no_twitch_end(events),
    ensures
        spec_run(true, events).0,
        spec_run(true, events).1.len() == events.len(),
        forall|i: int| 0 <= i < events.len() ==> #[trigger] spec_run(true, events).1[i] == ActionKind::Drop,
    decreases events.len(),
{
    if events.len() > 0 {
        assert(no_twitch_end(events.drop_last()));
        lemma_active_run_drops_everything(events.drop_last());
        assert(events.last() == events[events.len() - 1]);
        let prev = spec_run(true, events.drop_last()).1;
        assert(spec_run(true, events).1 == prev.push(ActionKind::Drop));
        assert forall|i: int| 0 <= i < events.len() implies #[trigger] spec_run(true, events).1[i]
            == ActionKind::Drop by {
            if i < events.len() - 1 {
                assert(prev.push(ActionKind::Drop)[i] == prev[i]);
            }
        }
    }
}

/// Between two ends, at most one Twitch run starts, and none starts while
/// one is active.
pub proof fn lemma_at_most_one_twitch_run(interrupt: bool, events: Seq<QueueEvent>)
    requires
        no_twitch_end(events),
    ensures
        count_starts(spec_run(interrupt, events).1) <= 1,
        interrupt ==> count_starts(spec_run(interrupt, events).1) == 0,
        interrupt ==> spec_run(interrupt, events).0,
        count_starts(spec_run(interrupt, events).1) == 1 ==> spec_run(interrupt, events).0,
        !spec_run(interrupt, events).0 ==> count_starts(spec_run(interrupt, events).1) == 0,
    decreases events.len(),
{
    if events.len() > 0 {
        assert(no_twitch_end(events.drop_last()));
        lemma_at_most_one_twitch_run(interrupt, events.drop_last());
        assert(events.last() == events[events.len() - 1]);
        let (state, actions) = spec_run(interrupt, events.drop_last());
        let (next, action) = spec_step(state, events.last());
        assert(spec_run(interrupt, events).1.drop_last() == actions);
    }
}

/// With no Twitch run active, an OSC message is handled and the handler
/// stays idle, and a Twitch request starts a run; an end arriving at any
/// time leaves the handler idle.
pub proof fn lemma_idle_handler(interrupt: bool, command: TwitchCommand)
    ensures
        spec_step(false, QueueEvent::FromOsc) == (false, ActionKind::HandleOsc),
        spec_step(false, QueueEvent::FromTwitch(command)) == (true, ActionKind::StartTwitch),
        spec_step(true, QueueEvent::FromOsc) == (true, ActionKind::Drop),
        spec_step(true, QueueEvent::FromTwitch(command)) == (true, ActionKind::Drop),
        spec_step(interrupt, QueueEvent::OnTwitchEnd) == (false, ActionKind::Resume),
{
}

/// The end of a Twitch run always lets OSC messages through again.
pub proof fn lemma_end_resumes(interrupt: bool, events: Seq<QueueEvent>)
    ensures
        spec_run(interrupt, events.push(QueueEvent::OnTwitchEnd)).0 == false,
        spec_run(interrupt, events.push(QueueEvent::OnTwitchEnd).push(QueueEvent::FromOsc)).1.last()
            == ActionKind::HandleOsc,
{
    assert(events.push(QueueEvent::OnTwitchEnd).drop_last() =~= events);
    assert(events.push(QueueEvent::OnTwitchEnd).push(QueueEvent::FromOsc).drop_last()
        =~= events.push(QueueEvent::OnTwitchEnd));
}

/// The queue handler: whether a Twitch run is active, in which case OSC
/// messages are ignored.
#[derive(Debug)]
pub struct QueueHandler {
    pub interrupt: bool,
}

impl QueueHandler {
    /// A handler with no Twitch run active.
    pub fn new() -> (r: QueueHandler)
        ensures
            !r.interrupt,
    {
        QueueHandler { interrupt: false }
    }

    /// Whether an OSC packet is handled now: only while no Twitch run is
    /// active.
    pub fn handle_osc(&self) -> (r: bool)
        ensures
            r == !self.interrupt,
    {
        !self.interrupt
    }

    /// A Twitch request arrives: ignored while a run is active; otherwise
    /// a run on the first configured device starts and OSC handling stops.
    pub fn handle_twitch(&mut self, config: &Config, command: TwitchCommand) -> (r: Option<TwitchRun>)
        requires
            !old(self).interrupt ==> config.wf(),
        ensures
            final(self).interrupt,
            old(self).interrupt ==> r is None,
            !old(self).interrupt ==> r is Some && r->0.device@ == config.headpat_device_uris@[0]@
                && r->0.power == command.power && r->0.pulses_left() == command.duration
                * PULSES_PER_SECOND,
    {
        if self.interrupt {
            return None;
        }
        self.interrupt = true;
        let device = config.headpat_device_uris[0].clone();
        Some(TwitchRun::new(device, command))
    }

    /// The running Twitch request has finished: OSC handling resumes.
    pub fn handle_twitch_end(&mut self)
        ensures
            !final(self).interrupt,
    {
        self.interrupt = false;
    }

    /// Answers one message on the queue.
    pub fn handle_message(&mut self, config: &Config, event: QueueEvent) -> (r: QueueAction)
        requires
            (event is FromTwitch && !old(self).interrupt) ==> config.wf(),
        ensures
            (final(self).interrupt, r.kind()) == spec_step(old(self).interrupt, event),
            r is StartTwitch ==> r->StartTwitch_0.device@ == config.headpat_device_uris@[0]@
                && r->StartTwitch_0.power == event->FromTwitch_0.power
                && r->StartTwitch_0.pulses_left() == event->FromTwitch_0.duration * PULSES_PER_SECOND,
    {
        match event {
            QueueEvent::FromOsc => {
                if self.handle_osc() {
                    QueueAction::HandleOsc
                } else {
                    QueueAction::Drop
                }
            },
            QueueEvent::FromTwitch(command) => match self.handle_twitch(config, command) {
                Some(run) => QueueAction::StartTwitch(run),
                None => QueueAction::Drop,
            },
            QueueEvent::OnTwitchEnd => {
                self.handle_twitch_end();
                QueueAction::Resume
            },
        }
    }
}

/// One step of a Twitch run.
#[derive(Debug)]
pub enum TwitchStep {
    /// Send `power` to the device, then wait 500 ms.
    Pulse { device: String, power: i32 },
    /// The run is over: report its end to the queue and restart the device.
    Finish { device: String },
}

/// The steps that a run with `remaining` pulses to go takes in its next
/// `n` steps: `true` for a pulse, `false` for the finish.
pub open spec fn spec_twitch_steps(remaining: nat, n: nat) -> Seq<bool>
    decreases n,
{
    if n == 0 {
        Seq::empty()
    } else if remaining > 0 {
        seq![true] + spec_twitch_steps((remaining - 1) as nat, (n - 1) as nat)
    } else {
        seq![false] + spec_twitch_steps(0, (n - 1) as nat)
    }
}

/// A run with `remaining` pulses to go sends exactly that many pulses and
/// then finishes.
pub proof fn lemma_twitch_run_length(remaining: nat)
    ensures
        spec_twitch_steps(remaining, remaining + 1).len() == remaining + 1,
        forall|i: int| 0 <= i < remaining ==> #[trigger] spec_twitch_steps(remaining, remaining + 1)[i],
        !spec_twitch_steps(remaining, remaining + 1)[remaining as int],
    decreases remaining,
{
    if remaining > 0 {
        lemma_twitch_run_length((remaining - 1) as nat);
        let rest = spec_twitch_steps((remaining - 1) as nat, remaining);
        assert(spec_twitch_steps(remaining, remaining + 1) == seq![true] + rest);
        assert forall|i: int| 0 <= i < remaining implies #[trigger] spec_twitch_steps(remaining, remaining + 1)[i] by {
            if i > 0 {
                assert((seq![true] + rest)[i] == rest[i - 1]);
            }
        }
        assert((seq![true] + rest)[remaining as int] == rest[remaining - 1]);
    } else {
        assert(spec_twitch_steps(0, 1) == seq![false] + spec_twitch_steps(0, 0));
    }
}

impl TwitchRun {
    /// A run of `command` on `device`: two pulses per second of duration.
    pub fn new(device: String, command: TwitchCommand) -> (r: TwitchRun)
        ensures
            r.device == device,
            r.power == command.power,
            r.pulses_left() == command.duration * PULSES_PER_SECOND,
    {
        TwitchRun { device, power: command.power, seconds_left: command.duration, half_pending: false }
    }

    /// The next step of the run: a pulse while pulses remain, then the
    /// finish (and the finish again on every later call).
    pub fn next(&mut self) -> (r: TwitchStep)
        ensures
            final(self).device == old(self).device,
            final(self).power == old(self).power,
            old(self).pulses_left() > 0 ==> final(self).pulses_left() == old(self).pulses_left() - 1
                && r is Pulse && r->Pulse_device@ == old(self).device@ && r->power == old(self).power,
            old(self).pulses_left() == 0 ==> final(self).pulses_left() == 0 && r is Finish
                && r->Finish_device@ == old(self).device@,
            spec_twitch_steps(old(self).pulses_left(), 1) == seq![r is Pulse],
    {
        proof {
            let before = self.pulses_left();
            assert(spec_twitch_steps(0, 0) =~= Seq::<bool>::empty());
            if before > 0 {
                assert(spec_twitch_steps((before - 1) as nat, 0) =~= Seq::<bool>::empty());
                assert(spec_twitch_steps(before, 1) =~= seq![true]);
            } else {
                assert(spec_twitch_steps(before, 1) =~= seq![false]);
            }
        }
        if self.half_pending {
            self.half_pending = false;
            TwitchStep::Pulse { device: self.device.clone(), power: self.power }
        } else if self.seconds_left > 0 {
            self.seconds_left = self.seconds_left - 1;
            self.half_pending = true;
            TwitchStep::Pulse { device: self.device.clone(), power: self.power }
        } else {
            TwitchStep::Finish { device: self.device.clone() }
        }
    }
}

} // verus!
