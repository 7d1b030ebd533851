//! What the router does with one incoming OSC message: adjust the maximum
//! speed, stop a device, or drive it.
use vstd::prelude::*;
use crate::config::Config;
use crate::text::host_port;

verus! {

/// How many zero packets stop a device.
pub const STOP_REPEAT: usize = 5;

/// What the first argument of an OSC message says, read as a float.
#[derive(Debug, Clone, Copy, PartialEq, Eq, Structural)]
pub enum Signal {
    /// The message carries no float as its first argument.
    Absent,
    /// The float is exactly zero.
    Zero,
    /// Any other float.
    NonZero,
}

/// The router's answer to one OSC message.
#[derive(Debug)]
pub enum OscAction {
    /// Nothing to do: the message carries no float.
    Ignore,
    /// The message sets the maximum speed.
    SetMaxSpeed,
    /// Send `STOP_REPEAT` zero packets to the device.
    Stop { device: String },
    /// Send one packet, scaled from the signal, to the device.
    Drive { device: String },
}

/// The answer to an OSC message with `address` and `signal`.
pub open spec fn spec_osc_action(max_speed_address: Seq<char>, address: Seq<char>, signal: Signal) -> OscActionView {
    if signal == Signal::Absent {
        OscActionView::Ignore
    } else if address == max_speed_address {
        OscActionView::SetMaxSpeed
    } else if signal == Signal::Zero {
        OscActionView::Stop(address)
    } else {
        OscActionView::Drive(address)
    }
}

/// The view of an `OscAction`.
pub enum OscActionView {
    Ignore,
    SetMaxSpeed,
    Stop(Seq<char>),
    Drive(Seq<char>),
}

impl View for OscAction {
    type V = OscActionView;

    open spec fn view(&self) -> OscActionView {
        match self {
            OscAction::Ignore => OscActionView::Ignore,
            OscAction::SetMaxSpeed => OscActionView::SetMaxSpeed,
            OscAction::Stop { device } => OscActionView::Stop(device@),
            OscAction::Drive { device } => OscActionView::Drive(device@),
        }
    }
}

/// Decides what an OSC message with `address` and `signal` asks for. A
/// message without a float is ignored; the maximum-speed parameter sets
/// the maximum speed; any other address names the device to stop (on a
/// zero signal) or to drive.
pub fn handle_osc_message(config: &Config, address: &String, signal: Signal) -> (r: OscAction)
    ensures
        r@ == spec_osc_action(config.max_speed_parameter_address@, address@, signal),
{
    match signal {
        Signal::Absent => OscAction::Ignore,
        _ => {
            if *address == config.max_speed_parameter_address {
                OscAction::SetMaxSpeed
            } else {
                handle_proximity(address, signal)
            }
        },
    }
}

/// The action for a proximity signal on `device`: stop it on zero, drive
/// it otherwise.
pub fn handle_proximity(device: &String, signal: Signal) -> (r: OscAction)
    requires
        signal != Signal::Absent,
    ensures
        signal == Signal::Zero ==> r@ == OscActionView::Stop(device@),
        signal == Signal::NonZero ==> r@ == OscActionView::Drive(device@),
{
    match signal {
        Signal::Zero => OscAction::Stop { device: device.clone() },
        _ => OscAction::Drive { device: device.clone() },
    }
}

/// The local socket address on which OSC messages are received:
/// `127.0.0.1` and the configured port.
pub fn listen_address(config: &Config) -> (r: String)
    ensures
        r@ == seq!['1', '2', '7', '.', '0', '.', '0', '.', '1', ':'] + config.port_rx@,
{
    proof {
        reveal_strlit("127.0.0.1");
    }
    let host = "127.0.0.1";
    assert(host@ + seq![':'] =~= seq!['1', '2', '7', '.', '0', '.', '0', '.', '1', ':']);
    host_port(host, config.port_rx.as_str())
}

/// The packets that stop `device`: `STOP_REPEAT` times a zero addressed
/// to it.
pub fn stop_packets(device: &String) -> (r: Vec<(String, i32)>)
    ensures
        r@.len() == STOP_REPEAT,
        forall|i: int| 0 <= i < r@.len() ==> (#[trigger] r@[i]).0@ == device@ && r@[i].1 == 0,
{
    let mut r: Vec<(String, i32)> = Vec::new();
    let mut i: usize = 0;
    while i < STOP_REPEAT
        invariant
            i <= STOP_REPEAT,
            r@.len() == i,
            forall|k: int| 0 <= k < i ==> (#[trigger] r@[k]).0@ == device@ && r@[k].1 == 0,
        decreases STOP_REPEAT - i,
    {
        r.push((device.clone(), 0));
        i = i + 1;
    }
    r
}

/// The bar drawn for a signal in the log: `dashes` dashes and an arrow head.
pub fn proximity_bar(dashes: usize) -> (r: String)
    requires
        dashes < usize::MAX,
    ensures
        r@.len() == dashes + 1,
        forall|i: int| 0 <= i < dashes ==> r@[i] == '-',
        r@[dashes as int] == '>',
{
    let mut r = String::new();
    let mut i: usize = 0;
    proof {
        reveal_strlit("-");
        reveal_strlit(">");
    }
    while i < dashes
        invariant
            i <= dashes,
            r@.len() == i,
            forall|k: int| 0 <= k < i ==> r@[k] == '-',
        decreases dashes - i,
    {
        proof {
            reveal_strlit("-");
        }
        assert("-"@ =~= seq!['-']);
        r.append("-");
        i = i + 1;
    }
    assert(">"@ =~= seq!['>']);
    r.append(">");
    r
}

/// A message without a float is ignored, whatever its address; a message
/// with a float to the maximum-speed parameter sets the maximum speed; to
/// any other address, a zero stops that device and any other value drives
/// it.
pub proof fn lemma_osc_answers(max_speed_address: Seq<char>, address: Seq<char>)
    ensures
        spec_osc_action(max_speed_address, address, Signal::Absent) == OscActionView::Ignore,
        spec_osc_action(max_speed_address, max_speed_address, Signal::Zero) == OscActionView::SetMaxSpeed,
        spec_osc_action(max_speed_address, max_speed_address, Signal::NonZero) == OscActionView::SetMaxSpeed,
        address != max_speed_address ==> spec_osc_action(max_speed_address, address, Signal::Zero)
            == OscActionView::Stop(address),
        address != max_speed_address ==> spec_osc_action(max_speed_address, address, Signal::NonZero)
            == OscActionView::Drive(address),
{
}

} // verus!
