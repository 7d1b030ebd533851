//! Which device sockets the router opens, and under which key each is kept.
use vstd::prelude::*;
use crate::config::{strings_view, Config};
use crate::device_table::DeviceTable;
use crate::device_uri::{motor_address, spark_address, DeviceType, DeviceUri};
use crate::router::{is_first_position, position, spec_position};
use crate::text::host_port;

verus! {

/// The UDP port on which every device listens.
pub open spec fn device_port() -> Seq<char> {
    seq!['8', '8', '8', '8']
}

/// A device socket to open: the socket address of the device, the OSC
/// address the packets are sent to, and the seconds of silence after which
/// the device is stopped.
#[derive(Debug, Clone)]
pub struct SocketSpec {
    pub socket_address: String,
    pub target_address: String,
    pub timeout: u64,
}

impl SocketSpec {
    /// This is the socket for the device at `ip`, port `port`, sending to
    /// `target` with `timeout`.
    pub open spec fn describes(self, ip: Seq<char>, port: Seq<char>, target: Seq<char>, timeout: u64) -> bool {
        &&& self.socket_address@ == ip + seq![':'] + port
        &&& self.target_address@ == target
        &&& self.timeout == timeout
    }

    /// The socket for the device at `device_ip`, port `port`, that sends to
    /// `target_address` and times out after `timeout` seconds.
    pub fn new(device_ip: &str, port: &str, timeout: u64, target_address: String) -> (r: SocketSpec)
        ensures
            r.describes(device_ip@, port@, target_address@, timeout),
    {
        SocketSpec { socket_address: host_port(device_ip, port), target_address, timeout }
    }
}

/// The key under which the sockets of the `j`-th device are kept: the
/// proximity parameter at the position where that device's address first
/// occurs.
pub open spec fn socket_key(uris: Seq<Seq<char>>, params: Seq<Seq<char>>, j: int) -> Seq<char> {
    params[spec_position(uris, uris[j])->0]
}

/// The device whose sockets each key holds after the first `n` devices
/// were entered, later devices replacing earlier ones under the same key.
pub open spec fn socket_plan(uris: Seq<Seq<char>>, params: Seq<Seq<char>>, n: int) -> Map<Seq<char>, Seq<char>>
    decreases n,
{
    if n <= 0 {
        Map::empty()
    } else {
        socket_plan(uris, params, n - 1).insert(socket_key(uris, params, n - 1), uris[n - 1])
    }
}

/// Every device's address first occurs at a position that has a proximity
/// parameter.
pub open spec fn every_device_has_parameter(config: Config) -> bool {
    let uris = strings_view(config.headpat_device_uris@);
    forall|j: int| 0 <= j < uris.len() ==> spec_position(uris, #[trigger] uris[j])->0
        < config.proximity_parameters_multi@.len()
}

proof fn lemma_own_position(uris: Seq<Seq<char>>, j: int)
    requires
        0 <= j < uris.len(),
    ensures
        spec_position(uris, uris[j]) is Some,
        spec_position(uris, uris[j])->0 <= j,
    decreases j,
{
    let x = uris[j];
    if forall|m: int| 0 <= m < j ==> uris[m] != x {
        assert(is_first_position(uris, x, j));
        let c = choose|i: int| is_first_position(uris, x, i);
        crate::router::lemma_first_position_unique(uris, x, j, c);
    } else {
        let m = choose|m: int| 0 <= m < j && uris[m] == x;
        lemma_own_position(uris, m);
    }
}

/// The key of a device is the proximity parameter at the first position
/// of the device's address.
pub proof fn lemma_socket_key(uris: Seq<Seq<char>>, params: Seq<Seq<char>>, j: int, i: int)
    requires
        0 <= j < uris.len(),
        is_first_position(uris, uris[j], i),
    ensures
        socket_key(uris, params, j) == params[i],
{
    let c = choose|k: int| is_first_position(uris, uris[j], k);
    crate::router::lemma_first_position_unique(uris, uris[j], i, c);
}

/// Device `j` is the last of the first `n` devices whose key is its key.
pub open spec fn last_with_key(uris: Seq<Seq<char>>, params: Seq<Seq<char>>, n: int, j: int) -> bool {
    &&& 0 <= j < n
    &&& forall|l: int| j < l < n ==> socket_key(uris, params, l) != socket_key(uris, params, j)
}

/// The socket plan has a key for exactly the keys of the devices, and
/// under each the address of the last device with that key.
pub proof fn lemma_socket_plan_last_device(uris: Seq<Seq<char>>, params: Seq<Seq<char>>, n: int)
    requires
        0 <= n <= uris.len(),
    ensures
        forall|k: Seq<char>| socket_plan(uris, params, n).contains_key(k) ==> exists|j: int|
            0 <= j < n && #[trigger] socket_key(uris, params, j) == k,
        forall|j: int| 0 <= j < n ==> socket_plan(uris, params, n).contains_key(#[trigger] socket_key(uris, params, j)),
        forall|j: int| #[trigger] last_with_key(uris, params, n, j) ==> socket_plan(uris, params, n)[socket_key(
            uris,
            params,
            j,
        )] == uris[j],
    decreases n,
{
    if n > 0 {
        lemma_socket_plan_last_device(uris, params, n - 1);
        let prev = socket_plan(uris, params, n - 1);
        let key = socket_key(uris, params, n - 1);
        assert forall|k: Seq<char>| socket_plan(uris, params, n).contains_key(k) implies exists|j: int|
            0 <= j < n && #[trigger] socket_key(uris, params, j) == k by {
            if k != key {
                assert(prev.contains_key(k));
                let j = choose|j: int| 0 <= j < n - 1 && #[trigger] socket_key(uris, params, j) == k;
                assert(socket_key(uris, params, j) == k);
            } else {
                assert(socket_key(uris, params, n - 1) == k);
            }
        }
        assert forall|j: int| 0 <= j < n implies socket_plan(uris, params, n).contains_key(
            #[trigger] socket_key(uris, params, j),
        ) by {
            if j < n - 1 {
                assert(prev.contains_key(socket_key(uris, params, j)));
            }
        }
        assert forall|j: int| #[trigger] last_with_key(uris, params, n, j) implies socket_plan(uris, params, n)[socket_key(
            uris,
            params,
            j,
        )] == uris[j] by {
            if j < n - 1 {
                assert(socket_key(uris, params, n - 1) != socket_key(uris, params, j));
                assert(last_with_key(uris, params, n - 1, j));
            }
        }
    }
}

/// The sockets of every device: for each device, one socket to its motor
/// address and one to its spark address, both on port 8888, kept under the
/// proximity parameter at the position where the device's address first
/// occurs.
pub fn device_socket_plan(config: &Config) -> (r: DeviceTable<Vec<SocketSpec>>)
    requires
        every_device_has_parameter(*config),
    ensures
        r.wf(),
        ({
            let uris = strings_view(config.headpat_device_uris@);
            let params = strings_view(config.proximity_parameters_multi@);
            let plan = socket_plan(uris, params, uris.len() as int);
            &&& r@.dom() == plan.dom()
            &&& forall|k: Seq<char>| #[trigger] plan.contains_key(k) ==> {
                &&& r@[k]@.len() == 2
                &&& r@[k]@[0].describes(plan[k], device_port(), motor_address(), config.timeout_setting)
                &&& r@[k]@[1].describes(plan[k], device_port(), spark_address(), config.timeout_setting)
            }
        }),
        ({
            let uris = strings_view(config.headpat_device_uris@);
            let params = strings_view(config.proximity_parameters_multi@);
            forall|j: int, i: int| #[trigger] last_with_key(uris, params, uris.len() as int, j)
                && #[trigger] is_first_position(uris, uris[j], i) ==> {
                &&& r@.contains_key(params[i])
                &&& r@[params[i]]@.len() == 2
                &&& r@[params[i]]@[0].describes(uris[j], device_port(), motor_address(), config.timeout_setting)
                &&& r@[params[i]]@[1].describes(uris[j], device_port(), spark_address(), config.timeout_setting)
            }
        }),
{
    let ghost uris = strings_view(config.headpat_device_uris@);
    let ghost params = strings_view(config.proximity_parameters_multi@);
    let mut table: DeviceTable<Vec<SocketSpec>> = DeviceTable::new();
    let mut j: usize = 0;
    proof {
        reveal_strlit("8888");
    }
    let port = "8888";
    assert(port@ =~= device_port());
    while j < config.headpat_device_uris.len()
        invariant
            uris == strings_view(config.headpat_device_uris@),
            params == strings_view(config.proximity_parameters_multi@),
            every_device_has_parameter(*config),
            port@ == device_port(),
            j <= uris.len(),
            table.wf(),
            table@.dom() == socket_plan(uris, params, j as int).dom(),
            forall|k: Seq<char>| #[trigger] socket_plan(uris, params, j as int).contains_key(k) ==> {
                &&& table@[k]@.len() == 2
                &&& table@[k]@[0].describes(socket_plan(uris, params, j as int)[k], device_port(), motor_address(), config.timeout_setting)
                &&& table@[k]@[1].describes(socket_plan(uris, params, j as int)[k], device_port(), spark_address(), config.timeout_setting)
            },
        decreases uris.len() - j,
    {
        let address = &config.headpat_device_uris[j];
        assert(uris[j as int] == address@);
        proof {
            lemma_own_position(uris, j as int);
        }
        let index = position(&config.headpat_device_uris, address).unwrap();
        assert(params[index as int] == config.proximity_parameters_multi@[index as int]@);
        let mut sockets: Vec<SocketSpec> = Vec::new();
        sockets.push(SocketSpec::new(address.as_str(), port, config.timeout_setting, DeviceType::Motor.as_address()));
        sockets.push(SocketSpec::new(address.as_str(), port, config.timeout_setting, DeviceType::Spark.as_address()));
        let key = config.proximity_parameters_multi[index].clone();
        table.insert(key, sockets);
        proof {
            let plan = socket_plan(uris, params, j + 1);
            assert(plan == socket_plan(uris, params, j as int).insert(socket_key(uris, params, j as int), uris[j as int]));
            assert(table@.dom() =~= plan.dom());
        }
        j = j + 1;
    }
    proof {
        let n = uris.len() as int;
        lemma_socket_plan_last_device(uris, params, n);
        assert forall|jj: int, i: int| #[trigger] last_with_key(uris, params, n, jj)
            && #[trigger] is_first_position(uris, uris[jj], i) implies {
            &&& table@.contains_key(params[i])
            &&& table@[params[i]]@.len() == 2
            &&& table@[params[i]]@[0].describes(uris[jj], device_port(), motor_address(), config.timeout_setting)
            &&& table@[params[i]]@[1].describes(uris[jj], device_port(), spark_address(), config.timeout_setting)
        } by {
            lemma_socket_key(uris, params, jj, i);
            assert(socket_plan(uris, params, n).contains_key(socket_key(uris, params, jj)));
        }
    }
    table
}

/// The device that each key holds after the first `n` devices were
/// entered: keyed by address, later devices replacing earlier ones.
pub open spec fn handle_plan(devices: Seq<DeviceUri>, n: int) -> Map<Seq<char>, DeviceType>
    decreases n,
{
    if n <= 0 {
        Map::empty()
    } else {
        handle_plan(devices, n - 1).insert(devices[n - 1].uri@, devices[n - 1].device_type)
    }
}

/// Device `j` is the last of the first `n` devices listed with its address.
pub open spec fn last_with_address(devices: Seq<DeviceUri>, n: int, j: int) -> bool {
    &&& 0 <= j < n
    &&& forall|l: int| j < l < n ==> devices[l].uri@ != devices[j].uri@
}

/// The handle plan has a key for exactly the addresses of the devices,
/// and under each the kind of the last device listed with that address.
pub proof fn lemma_handle_plan_last_device(devices: Seq<DeviceUri>, n: int)
    requires
        0 <= n <= devices.len(),
    ensures
        forall|k: Seq<char>| handle_plan(devices, n).contains_key(k) ==> exists|j: int|
            0 <= j < n && #[trigger] devices[j].uri@ == k,
        forall|j: int| 0 <= j < n ==> handle_plan(devices, n).contains_key(#[trigger] devices[j].uri@),
        forall|j: int| #[trigger] last_with_address(devices, n, j) ==> handle_plan(devices, n)[devices[j].uri@]
            == devices[j].device_type,
    decreases n,
{
    if n > 0 {
        lemma_handle_plan_last_device(devices, n - 1);
        let prev = handle_plan(devices, n - 1);
        let last = devices[n - 1];
        assert forall|k: Seq<char>| handle_plan(devices, n).contains_key(k) implies exists|j: int|
            0 <= j < n && #[trigger] devices[j].uri@ == k by {
            if k != last.uri@ {
                assert(prev.contains_key(k));
                let j = choose|j: int| 0 <= j < n - 1 && #[trigger] devices[j].uri@ == k;
                assert(devices[j].uri@ == k);
            } else {
                assert(devices[n - 1].uri@ == k);
            }
        }
        assert forall|j: int| 0 <= j < n implies handle_plan(devices, n).contains_key(#[trigger] devices[j].uri@) by {
            if j < n - 1 {
                assert(prev.contains_key(devices[j].uri@));
            }
        }
        assert forall|j: int| #[trigger] last_with_address(devices, n, j) implies handle_plan(devices, n)[devices[j].uri@]
            == devices[j].device_type by {
            if j < n - 1 {
                assert(devices[n - 1].uri@ != devices[j].uri@);
                assert(last_with_address(devices, n - 1, j));
            }
        }
    }
}

/// The socket of every device, kept under the device's address: port
/// 8888 of that address, sending to the OSC address of the device's kind.
pub fn device_handle_plan(devices: &Vec<DeviceUri>, timeout: u64) -> (r: DeviceTable<SocketSpec>)
    ensures
        r.wf(),
        r@.dom() == handle_plan(devices@, devices@.len() as int).dom(),
        forall|k: Seq<char>| #[trigger] handle_plan(devices@, devices@.len() as int).contains_key(k)
            ==> r@[k].describes(k, device_port(), handle_plan(devices@, devices@.len() as int)[k].spec_address(), timeout),
        forall|k: Seq<char>| r@.contains_key(k) ==> exists|j: int|
            0 <= j < devices@.len() && #[trigger] devices@[j].uri@ == k,
        forall|j: int| #[trigger] last_with_address(devices@, devices@.len() as int, j) ==> r@.contains_key(devices@[j].uri@)
            && r@[devices@[j].uri@].describes(devices@[j].uri@, device_port(), devices@[j].device_type.spec_address(), timeout),
{
    let mut table: DeviceTable<SocketSpec> = DeviceTable::new();
    let mut j: usize = 0;
    proof {
        reveal_strlit("8888");
    }
    let port = "8888";
    assert(port@ =~= device_port());
    while j < devices.len()
        invariant
            port@ == device_port(),
            j <= devices@.len(),
            table.wf(),
            table@.dom() == handle_plan(devices@, j as int).dom(),
            forall|k: Seq<char>| #[trigger] handle_plan(devices@, j as int).contains_key(k)
                ==> table@[k].describes(k, device_port(), handle_plan(devices@, j as int)[k].spec_address(), timeout),
        decreases devices@.len() - j,
    {
        let device = &devices[j];
        let spec = SocketSpec::new(device.uri.as_str(), port, timeout, device.device_type.as_address());
        table.insert(device.uri.clone(), spec);
        proof {
            let plan = handle_plan(devices@, j + 1);
            assert(table@.dom() =~= plan.dom());
        }
        j = j + 1;
    }
    proof {
        let n = devices@.len() as int;
        lemma_handle_plan_last_device(devices@, n);
        assert forall|k: Seq<char>| table@.contains_key(k) implies exists|i: int|
            0 <= i < devices@.len() && #[trigger] devices@[i].uri@ == k by {
            assert(handle_plan(devices@, n).contains_key(k));
        }
        assert forall|i: int| #[trigger] last_with_address(devices@, n, i) implies table@.contains_key(devices@[i].uri@)
            && table@[devices@[i].uri@].describes(devices@[i].uri@, device_port(), devices@[i].device_type.spec_address(), timeout) by {
            assert(handle_plan(devices@, n).contains_key(devices@[i].uri@));
        }
    }
    table
}

} // verus!
