//! Routing of OSC messages by avatar parameter: the maximum-speed
//! parameter, or the proximity parameter that belongs to a device.
use vstd::prelude::*;
use crate::config::{strings_view, Config};
use crate::osc_actor::Signal;

verus! {

/// `i` is the first position at which `x` occurs in `s`.
pub open spec fn is_first_position(s: Seq<Seq<char>>, x: Seq<char>, i: int) -> bool {
    &&& 0 <= i < s.len()
    &&& s[i] == x
    &&& forall|j: int| 0 <= j < i ==> s[j] != x
}

/// The first position of `x` in `s` (what `Iterator::position` finds).
pub open spec fn spec_position(s: Seq<Seq<char>>, x: Seq<char>) -> Option<int> {
    if exists|i: int| is_first_position(s, x, i) {
        Some(choose|i: int| is_first_position(s, x, i))
    } else {
        None
    }
}

/// There is at most one first position.
pub proof fn lemma_first_position_unique(s: Seq<Seq<char>>, x: Seq<char>, i: int, j: int)
    requires
        is_first_position(s, x, i),
        is_first_position(s, x, j),
    ensures
        i == j,
{
    if i < j {
        assert(s[i] != x);
    } else if j < i {
        assert(s[j] != x);
    }
}

/// The first position at which `x` occurs in `list`, if any.
pub fn position(list: &Vec<String>, x: &String) -> (r: Option<usize>)
    ensures
        r matches Some(i) ==> spec_position(strings_view(list@), x@) == Some(i as int),
        r is None ==> spec_position(strings_view(list@), x@) is None,
        r is None ==> !strings_view(list@).contains(x@),
{
    let ghost s = strings_view(list@);
    let mut i: usize = 0;
    while i < list.len()
        invariant
            s == strings_view(list@),
            i <= list@.len(),
            forall|j: int| 0 <= j < i ==> s[j] != x@,
        decreases list@.len() - i,
    {
        assert(s[i as int] == list@[i as int]@);
        if list[i] == *x {
            proof {
                assert(is_first_position(s, x@, i as int));
                let c = choose|k: int| is_first_position(s, x@, k);
                lemma_first_position_unique(s, x@, i as int, c);
            }
            return Some(i);
        }
        i = i + 1;
    }
    proof {
        assert forall|k: int| !is_first_position(s, x@, k) by {}
        assert forall|k: int| 0 <= k < s.len() implies s[k] != x@ by {}
    }
    None
}

/// Where an OSC message goes under the parameter routing.
#[derive(Debug)]
pub enum ParameterRoute {
    /// The message carries no float.
    Ignore,
    /// The message sets the maximum speed.
    SetMaxSpeed,
    /// The message drives the device at `device`, through its proximity
    /// parameter `parameter`.
    Device { device: String, parameter: String },
    /// No device listens on this parameter.
    Unknown,
}

/// The view of a `ParameterRoute`.
pub enum ParameterRouteView {
    Ignore,
    SetMaxSpeed,
    Device(Seq<char>, Seq<char>),
    Unknown,
}

impl View for ParameterRoute {
    type V = ParameterRouteView;

    open spec fn view(&self) -> ParameterRouteView {
        match self {
            ParameterRoute::Ignore => ParameterRouteView::Ignore,
            ParameterRoute::SetMaxSpeed => ParameterRouteView::SetMaxSpeed,
            ParameterRoute::Device { device, parameter } => ParameterRouteView::Device(
                device@,
                parameter@,
            ),
            ParameterRoute::Unknown => ParameterRouteView::Unknown,
        }
    }
}

/// If `address` is a proximity parameter, a device stands at the position
/// where it first occurs.
pub open spec fn routable(config: Config, address: Seq<char>) -> bool {
    spec_position(strings_view(config.proximity_parameters_multi@), address) matches Some(i)
        ==> i < config.headpat_device_uris@.len()
}

/// The route of a message with `address` and `signal`.
pub open spec fn spec_route(config: Config, address: Seq<char>, signal: Signal) -> ParameterRouteView {
    let params = strings_view(config.proximity_parameters_multi@);
    if signal == Signal::Absent {
        ParameterRouteView::Ignore
    } else if address == config.max_speed_parameter_address@ {
        ParameterRouteView::SetMaxSpeed
    } else {
        match spec_position(params, address) {
            Some(i) => ParameterRouteView::Device(config.headpat_device_uris@[i]@, params[i]),
            None => ParameterRouteView::Unknown,
        }
    }
}

/// Routes an OSC message by its address: the maximum-speed parameter sets
/// the maximum speed; a proximity parameter drives the device configured
/// at the same position (the first such parameter, where one is listed
/// twice); any other address is unknown. A message without a float is
/// ignored.
pub fn route_parameter(config: &Config, address: &String, signal: Signal) -> (r: ParameterRoute)
    requires
        (signal != Signal::Absent && address@ != config.max_speed_parameter_address@) ==> routable(
            *config,
            address@,
        ),
    ensures
        r@ == spec_route(*config, address@, signal),
{
    if signal == Signal::Absent {
        return ParameterRoute::Ignore;
    }
    if *address == config.max_speed_parameter_address {
        return ParameterRoute::SetMaxSpeed;
    }
    match position(&config.proximity_parameters_multi, address) {
        Some(i) => {
            assert(strings_view(config.proximity_parameters_multi@)[i as int]
                == config.proximity_parameters_multi@[i as int]@);
            ParameterRoute::Device {
                device: config.headpat_device_uris[i].clone(),
                parameter: config.proximity_parameters_multi[i].clone(),
            }
        },
        None => ParameterRoute::Unknown,
    }
}

/// A message without a float is ignored, whatever its address, the
/// maximum-speed parameter included.
pub proof fn lemma_route_without_float_is_ignored(config: Config, address: Seq<char>)
    ensures
        spec_route(config, address, Signal::Absent) == ParameterRouteView::Ignore,
{
}

/// A message with a float to the maximum-speed parameter sets the maximum
/// speed, a zero included.
pub proof fn lemma_route_max_speed(config: Config, signal: Signal)
    requires
        signal != Signal::Absent,
    ensures
        spec_route(config, config.max_speed_parameter_address@, signal)
            == ParameterRouteView::SetMaxSpeed,
{
}

/// A message with a float to the proximity parameter first listed at
/// position `i` (and not the maximum-speed parameter) drives the device at
/// position `i`, through that parameter; an address that is no proximity
/// parameter is unknown.
pub proof fn lemma_route_device(config: Config, address: Seq<char>, signal: Signal, i: int)
    requires
        signal != Signal::Absent,
        address != config.max_speed_parameter_address@,
    ensures
        (0 <= i < config.proximity_parameters_multi@.len()
            && config.proximity_parameters_multi@[i]@ == address
            && (forall|j: int| 0 <= j < i ==> config.proximity_parameters_multi@[j]@ != address))
            ==> spec_route(config, address, signal) == ParameterRouteView::Device(
            config.headpat_device_uris@[i]@,
            address,
        ),
        (forall|j: int| 0 <= j < config.proximity_parameters_multi@.len()
            ==> config.proximity_parameters_multi@[j]@ != address)
            ==> spec_route(config, address, signal) == ParameterRouteView::Unknown,
{
    let params = strings_view(config.proximity_parameters_multi@);
    if 0 <= i < config.proximity_parameters_multi@.len()
        && config.proximity_parameters_multi@[i]@ == address
        && (forall|j: int| 0 <= j < i ==> config.proximity_parameters_multi@[j]@ != address) {
        assert forall|j: int| 0 <= j < i implies params[j] != address by {
            assert(params[j] == config.proximity_parameters_multi@[j]@);
        }
        assert(is_first_position(params, address, i));
        let c = choose|k: int| is_first_position(params, address, k);
        lemma_first_position_unique(params, address, i, c);
    }
    if forall|j: int| 0 <= j < config.proximity_parameters_multi@.len()
        ==> config.proximity_parameters_multi@[j]@ != address {
        assert forall|k: int| !is_first_position(params, address, k) by {
            if 0 <= k < params.len() {
                assert(params[k] == config.proximity_parameters_multi@[k]@);
            }
        }
    }
}

} // verus!
