//! Kinds of GiggleTech devices and the OSC address each one listens on.
use vstd::prelude::*;

verus! {

/// The two kinds of device that a configured URI can name.
#[derive(Debug, Clone, Copy, PartialEq, Eq, Structural)]
pub enum DeviceType {
    Motor,
    Spark,
}

/// A device: where it is reached and which kind it is.
#[derive(Debug)]
pub struct DeviceUri {
    pub uri: String,
    pub device_type: DeviceType,
}

/// The OSC address that a motor device listens on.
pub open spec fn motor_address() -> Seq<char> {
    seq!['/', 'a', 'v', 'a', 't', 'a', 'r', '/', 'p', 'a', 'r', 'a', 'm', 'e', 't', 'e', 'r', 's', '/', 'm', 'o', 't', 'o', 'r']
}

/// The OSC address that a spark device listens on.
pub open spec fn spark_address() -> Seq<char> {
    seq!['/', 'm', 'o', 't', 'o', 'r']
}

/// The name by which the configuration spells a motor device.
pub open spec fn motor_name() -> Seq<char> {
    seq!['m', 'o', 't', 'o', 'r']
}

/// The name by which the configuration spells a spark device.
pub open spec fn spark_name() -> Seq<char> {
    seq!['s', 'p', 'a', 'r', 'k']
}

/// The device kind that a configuration name denotes.
pub open spec fn spec_device_type(name: Seq<char>) -> Option<DeviceType> {
    if name == motor_name() {
        Some(DeviceType::Motor)
    } else if name == spark_name() {
        Some(DeviceType::Spark)
    } else {
        None
    }
}

impl DeviceType {
    /// The OSC address of this device kind.
    pub open spec fn spec_address(self) -> Seq<char> {
        match self {
            DeviceType::Motor => motor_address(),
            DeviceType::Spark => spark_address(),
        }
    }

    /// Reads a device kind from its configuration name; the name must be
    /// `motor` or `spark`.
    pub fn parse(input: &str) -> (r: Self)
        requires
            spec_device_type(input@) is Some,
        ensures
            Some(r) == spec_device_type(input@),
    {
        let s = String::from_str(input);
        let motor = String::from_str("motor");
        proof {
            reveal_strlit("motor");
            reveal_strlit("spark");
        }
        assert("motor"@ =~= motor_name());
        assert("spark"@ =~= spark_name());
        if s == motor {
            DeviceType::Motor
        } else {
            DeviceType::Spark
        }
    }

    /// The OSC address of this device kind.
    pub fn as_address(&self) -> (r: String)
        ensures
            r@ == self.spec_address(),
    {
        proof {
            reveal_strlit("/avatar/parameters/motor");
            reveal_strlit("/motor");
        }
        match self {
            DeviceType::Motor => {
                let r = String::from_str("/avatar/parameters/motor");
                assert(r@ =~= motor_address());
                r
            },
            DeviceType::Spark => {
                let r = String::from_str("/motor");
                assert(r@ =~= spark_address());
                r
            },
        }
    }
}

/// Different kinds of device listen on different addresses, so the
/// address tells the kind.
pub proof fn lemma_address_determines_type(a: DeviceType, b: DeviceType)
    ensures
        a.spec_address() == b.spec_address() ==> a == b,
{
    if a != b {
        assert(motor_address().len() != spark_address().len());
    }
}

/// Reading a kind's name gives that kind, and different names that are
/// read give different kinds.
pub proof fn lemma_parse_names(x: Seq<char>, y: Seq<char>)
    ensures
        spec_device_type(motor_name()) == Some(DeviceType::Motor),
        spec_device_type(spark_name()) == Some(DeviceType::Spark),
        spec_device_type(x) is Some && spec_device_type(x) == spec_device_type(y) ==> x == y,
{
    assert(motor_name() != spark_name()) by {
        assert(motor_name()[0] != spark_name()[0]);
    }
}

/// A motor listens on the avatar parameter called `motor`; a spark
/// listens on `/motor` itself.
pub proof fn lemma_device_addresses()
    ensures
        DeviceType::Motor.spec_address() == crate::text::avatar_prefix() + motor_name(),
        DeviceType::Spark.spec_address() == seq!['/'] + motor_name(),
{
    assert(DeviceType::Motor.spec_address() =~= crate::text::avatar_prefix() + motor_name());
    assert(DeviceType::Spark.spec_address() =~= seq!['/'] + motor_name());
}

} // verus!
