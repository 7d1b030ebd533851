//! The router's settings: reading them from the text of `config.ini` and
//! deriving the device list, the parameter addresses and the timeout.
use vstd::prelude::*;
use configparser::ini::Ini;
use crate::text::{
    avatar_parameter, avatar_prefix, parameter_name, parse_u64, spec_parse_u64,
    spec_split_whitespace, split_whitespace, trim_start_all,
};

verus! {

#[verifier::external_type_specification]
#[verifier::external_body]
pub struct ExIni(Ini);

/// What `Ini::get(section, key)` answers for each `(section, key)` query
/// on this parser: the keys of the map are the queries that find a value.
pub uninterp spec fn ini_lookup(ini: Ini) -> Map<(Seq<char>, Seq<char>), Seq<char>>;

/// Whether this parser has the settings that `Ini::new` gives
/// (case-insensitive, `;`/`#` comments, `=`/`:` delimiters, no multiline,
/// no cascading of defaults).
pub uninterp spec fn ini_made_default(ini: Ini) -> bool;

/// What `Ini::read` makes of `text` on a parser with the default settings:
/// `None` where it reports an error, otherwise the answers that `get`
/// gives afterwards.
pub uninterp spec fn ini_read_result(text: Seq<char>) -> Option<Map<(Seq<char>, Seq<char>), Seq<char>>>;

/// The lookup map that answers `None` to every query.
pub open spec fn no_values() -> Map<(Seq<char>, Seq<char>), Seq<char>> {
    Map::empty()
}

/// `Ini::new`: a parser with the default settings and no sections, on
/// which every `get` answers `None`.
#[verifier::external_body]
fn ini_new() -> (r: Ini)
    ensures
        ini_made_default(r),
        ini_lookup(r) == no_values(),
{
    Ini::new()
}

/// `Ini::read`: parses `text`; on success the parsed sections replace the
/// old ones, on error the parser is left as it was. The settings are kept.
/// What the parse yields is the named result `ini_read_result`.
#[verifier::external_body]
fn ini_read(ini: &mut Ini, text: String) -> (r: Result<(), String>)
    ensures
        ini_made_default(*final(ini)) == ini_made_default(*old(ini)),
        ini_made_default(*old(ini)) ==> (r is Ok <==> ini_read_result(text@) is Some),
        (r is Ok && ini_made_default(*old(ini))) ==> ini_lookup(*final(ini)) == ini_read_result(text@)->0,
        r is Err ==> ini_lookup(*final(ini)) == ini_lookup(*old(ini)),
{
    match ini.read(text) {
        Ok(_) => Ok(()),
        Err(e) => Err(e),
    }
}

/// `Ini::get`: the value found for `key` in `section`, if any.
#[verifier::external_body]
fn ini_get(ini: &Ini, section: &str, key: &str) -> (r: Option<String>)
    ensures
        r is Some <==> ini_lookup(*ini).contains_key((section@, key@)),
        r is Some ==> r->0@ == ini_lookup(*ini)[(section@, key@)],
{
    ini.get(section, key)
}

/// The view of an optional string.
pub open spec fn opt_view(o: Option<String>) -> Option<Seq<char>> {
    match o {
        Some(s) => Some(s@),
        None => None,
    }
}

/// The answer of a lookup map for one query.
pub open spec fn lookup_value(m: Map<(Seq<char>, Seq<char>), Seq<char>>, section: Seq<char>, key: Seq<char>) -> Option<Seq<char>> {
    if m.contains_key((section, key)) {
        Some(m[(section, key)])
    } else {
        None
    }
}

/// The keys of `config.ini` that the router reads.
#[derive(Debug, Clone, Copy, PartialEq, Eq, Structural)]
pub enum ConfigKey {
    DeviceIps,
    MinSpeed,
    MaxSpeed,
    MaxSpeedScale,
    PortRx,
    ProximityParametersMulti,
    Timeout,
}

/// Why the settings could not be read.
#[derive(Debug, Clone, Copy, PartialEq, Eq, Structural)]
pub enum ConfigError {
    /// The text is not a well-formed INI file.
    Unreadable,
    /// A key that the router needs has no value.
    MissingKey(ConfigKey),
    /// None of the configured device addresses is a valid IP address.
    NoDeviceUris,
    /// The validity flags given do not match the candidate device
    /// addresses one for one.
    FlagCountMismatch,
}

/// The raw values of the keys of `config.ini`, as the INI parser found them.
#[derive(Debug, Clone)]
pub struct ConfigValues {
    /// `[Setup] device_ips`
    pub device_ips: Option<String>,
    /// `[Config] min_speed`
    pub min_speed: Option<String>,
    /// `[Config] max_speed`
    pub max_speed: Option<String>,
    /// `[Config] max_speed_scale`
    pub max_speed_scale: Option<String>,
    /// `[Setup] port_rx`
    pub port_rx: Option<String>,
    /// `[Setup] proximity_parameters_multi`
    pub proximity_parameters_multi: Option<String>,
    /// `[Setup] max_speed_parameter`
    pub max_speed_parameter: Option<String>,
    /// `[Config] timeout`
    pub timeout: Option<String>,
    /// `[Setup] twitch_integration_url`
    pub twitch_integration_url: Option<String>,
}

impl ConfigValues {
    /// The values that the lookup map `m` gives for the router's keys.
    pub open spec fn matches_lookup(self, m: Map<(Seq<char>, Seq<char>), Seq<char>>) -> bool {
        &&& opt_view(self.device_ips) == lookup_value(m, "Setup"@, "device_ips"@)
        &&& opt_view(self.min_speed) == lookup_value(m, "Config"@, "min_speed"@)
        &&& opt_view(self.max_speed) == lookup_value(m, "Config"@, "max_speed"@)
        &&& opt_view(self.max_speed_scale) == lookup_value(m, "Config"@, "max_speed_scale"@)
        &&& opt_view(self.port_rx) == lookup_value(m, "Setup"@, "port_rx"@)
        &&& opt_view(self.proximity_parameters_multi) == lookup_value(
            m,
            "Setup"@,
            "proximity_parameters_multi"@,
        )
        &&& opt_view(self.max_speed_parameter) == lookup_value(m, "Setup"@, "max_speed_parameter"@)
        &&& opt_view(self.timeout) == lookup_value(m, "Config"@, "timeout"@)
        &&& opt_view(self.twitch_integration_url) == lookup_value(
            m,
            "Setup"@,
            "twitch_integration_url"@,
        )
    }

    /// Parses the text of `config.ini` and looks up every key the router
    /// reads. Fails exactly when the INI parser rejects the text.
    pub fn from_ini_text(text: String) -> (r: Result<ConfigValues, ConfigError>)
        ensures
            ini_read_result(text@) is None ==> r == Err::<ConfigValues, ConfigError>(
                ConfigError::Unreadable,
            ),
            ini_read_result(text@) is Some ==> r is Ok && r->Ok_0.matches_lookup(
                ini_read_result(text@)->0,
            ),
    {
        let mut ini = ini_new();
        match ini_read(&mut ini, text) {
            Err(_) => {
                return Err(ConfigError::Unreadable);
            },
            Ok(()) => {},
        }
        Ok(ConfigValues {
            device_ips: ini_get(&ini, "Setup", "device_ips"),
            min_speed: ini_get(&ini, "Config", "min_speed"),
            max_speed: ini_get(&ini, "Config", "max_speed"),
            max_speed_scale: ini_get(&ini, "Config", "max_speed_scale"),
            port_rx: ini_get(&ini, "Setup", "port_rx"),
            proximity_parameters_multi: ini_get(&ini, "Setup", "proximity_parameters_multi"),
            max_speed_parameter: ini_get(&ini, "Setup", "max_speed_parameter"),
            timeout: ini_get(&ini, "Config", "timeout"),
            twitch_integration_url: ini_get(&ini, "Setup", "twitch_integration_url"),
        })
    }
}

/// The character sequences of a sequence of strings.
pub open spec fn strings_view(v: Seq<String>) -> Seq<Seq<char>> {
    v.map_values(|s: String| s@)
}

/// The tokens whose validity flag is set, in order.
pub open spec fn select_valid(tokens: Seq<Seq<char>>, valid: Seq<bool>) -> Seq<Seq<char>>
    decreases tokens.len(),
{
    if tokens.len() == 0 || valid.len() == 0 {
        Seq::empty()
    } else {
        let rest = select_valid(tokens.drop_last(), valid.drop_last());
        if valid.last() {
            rest.push(tokens.last())
        } else {
            rest
        }
    }
}

/// Only addresses flagged valid are kept, and one is kept for every
/// flagged address: the kept list is empty exactly when no flag is set.
pub proof fn lemma_select_valid(tokens: Seq<Seq<char>>, valid: Seq<bool>)
    requires
        tokens.len() == valid.len(),
    ensures
        forall|k: int| 0 <= k < select_valid(tokens, valid).len() ==> exists|i: int|
            0 <= i < tokens.len() && valid[i] && #[trigger] select_valid(tokens, valid)[k] == tokens[i],
        select_valid(tokens, valid).len() <= tokens.len(),
        (select_valid(tokens, valid).len() == 0) <==> (forall|i: int| 0 <= i < valid.len() ==> !valid[i]),
    decreases tokens.len(),
{
    if tokens.len() > 0 {
        let t = tokens.drop_last();
        let v = valid.drop_last();
        lemma_select_valid(t, v);
        let rest = select_valid(t, v);
        let all = select_valid(tokens, valid);
        assert forall|k: int| 0 <= k < all.len() implies exists|i: int|
            0 <= i < tokens.len() && valid[i] && #[trigger] all[k] == tokens[i] by {
            if k < rest.len() {
                let i = choose|i: int| 0 <= i < t.len() && v[i] && #[trigger] rest[k] == t[i];
                assert(all[k] == rest[k]);
                assert(valid[i] && tokens[i] == t[i]);
            } else {
                assert(all[k] == tokens.last());
                assert(valid[tokens.len() - 1]);
            }
        }
        if forall|i: int| 0 <= i < valid.len() ==> !valid[i] {
            assert(!valid.last());
            assert forall|i: int| 0 <= i < v.len() implies !v[i] by {
                assert(v[i] == valid[i]);
            }
        } else {
            let i = choose|i: int| 0 <= i < valid.len() && valid[i];
            if i < valid.len() - 1 {
                assert(v[i]);
            }
        }
    }
}

/// How many flags are set.
pub open spec fn count_set(valid: Seq<bool>) -> nat
    decreases valid.len(),
{
    if valid.len() == 0 {
        0
    } else {
        count_set(valid.drop_last()) + if valid.last() {
            1nat
        } else {
            0nat
        }
    }
}

/// One address is kept for each set flag, and every address whose flag
/// is set is kept.
pub proof fn lemma_select_valid_keeps_every_valid(tokens: Seq<Seq<char>>, valid: Seq<bool>)
    requires
        tokens.len() == valid.len(),
    ensures
        select_valid(tokens, valid).len() == count_set(valid),
        forall|i: int| 0 <= i < tokens.len() && valid[i] ==> select_valid(tokens, valid).contains(
            #[trigger] tokens[i],
        ),
    decreases tokens.len(),
{
    if tokens.len() > 0 {
        let t = tokens.drop_last();
        let v = valid.drop_last();
        lemma_select_valid_keeps_every_valid(t, v);
        let rest = select_valid(t, v);
        let all = select_valid(tokens, valid);
        assert forall|i: int| 0 <= i < tokens.len() && valid[i] implies all.contains(#[trigger] tokens[i]) by {
            if i < tokens.len() - 1 {
                assert(t[i] == tokens[i] && v[i] == valid[i]);
                assert(rest.contains(t[i]));
                let k = choose|k: int| 0 <= k < rest.len() && rest[k] == t[i];
                if valid.last() {
                    assert(all[k] == rest[k]);
                }
            } else {
                assert(all[all.len() - 1] == tokens[i]);
            }
        }
    }
}

/// Selection keeps order: selecting from two lists one after the other
/// gives the selection from the first followed by the selection from the
/// second; with every flag set, every address is kept as it stands.
pub proof fn lemma_select_valid_in_order(t1: Seq<Seq<char>>, v1: Seq<bool>, t2: Seq<Seq<char>>, v2: Seq<bool>)
    requires
        t1.len() == v1.len(),
        t2.len() == v2.len(),
    ensures
        select_valid(t1 + t2, v1 + v2) == select_valid(t1, v1) + select_valid(t2, v2),
        (forall|i: int| 0 <= i < v1.len() ==> v1[i]) ==> select_valid(t1, v1) == t1,
    decreases t2.len() + t1.len(),
{
    if t2.len() == 0 {
        assert(t1 + t2 =~= t1);
        assert(v1 + v2 =~= v1);
        assert(select_valid(t1, v1) + select_valid(t2, v2) =~= select_valid(t1, v1));
    } else {
        lemma_select_valid_in_order(t1, v1, t2.drop_last(), v2.drop_last());
        assert((t1 + t2).drop_last() =~= t1 + t2.drop_last());
        assert((v1 + v2).drop_last() =~= v1 + v2.drop_last());
        if v2.last() {
            assert((select_valid(t1, v1) + select_valid(t2.drop_last(), v2.drop_last())).push(t2.last())
                =~= select_valid(t1, v1) + select_valid(t2.drop_last(), v2.drop_last()).push(t2.last()));
        }
    }
    if (forall|i: int| 0 <= i < v1.len() ==> v1[i]) && t1.len() > 0 {
        assert forall|i: int| 0 <= i < v1.drop_last().len() implies v1.drop_last()[i] by {
            assert(v1.drop_last()[i] == v1[i]);
        }
        lemma_select_valid_in_order(t1.drop_last(), v1.drop_last(), t2, v2);
        assert(v1[v1.len() - 1]);
        assert(t1.drop_last().push(t1.last()) =~= t1);
    } else if t1.len() == 0 {
        assert(select_valid(t1, v1) =~= t1);
    }
}

/// Each word of `text`, as an avatar parameter address.
pub open spec fn spec_parameter_addresses(text: Seq<char>) -> Seq<Seq<char>> {
    spec_split_whitespace(text).map_values(|w: Seq<char>| avatar_prefix() + w)
}

/// The value that stands in for a missing `max_speed_parameter`.
pub open spec fn default_max_speed_parameter() -> Seq<char> {
    avatar_prefix() + seq!['m', 'a', 'x', '_', 's', 'p', 'e', 'e', 'd']
}

/// The address of the maximum-speed parameter: the configured name (or
/// the stand-in when there is none) behind the avatar parameter prefix.
pub open spec fn spec_max_speed_address(name: Option<Seq<char>>) -> Seq<char> {
    match name {
        Some(n) => avatar_prefix() + n,
        None => avatar_prefix() + default_max_speed_parameter(),
    }
}

/// The decimal digit for `d`, for `d` below 10.
pub open spec fn digit_char(d: nat) -> char {
    if d == 0 { '0' } else if d == 1 { '1' } else if d == 2 { '2' } else if d == 3 { '3' }
    else if d == 4 { '4' } else if d == 5 { '5' } else if d == 6 { '6' } else if d == 7 { '7' }
    else if d == 8 { '8' } else { '9' }
}

/// The decimal numeral of `n`, without leading zeros.
pub open spec fn decimal(n: nat) -> Seq<char>
    decreases n,
{
    if n < 10 {
        seq![digit_char(n)]
    } else {
        decimal(n / 10).push(digit_char(n % 10))
    }
}

proof fn lemma_digit_char(d: nat)
    requires
        d < 10,
    ensures
        crate::text::is_digit(digit_char(d)),
        digit_char(d) != '+',
        (digit_char(d) as nat - '0' as nat) as nat == d,
{
}

proof fn lemma_decimal(n: nat)
    ensures
        decimal(n).len() > 0,
        decimal(n)[0] != '+',
        crate::text::all_digits(decimal(n)),
        crate::text::digits_value(decimal(n)) == n,
    decreases n,
{
    if n < 10 {
        lemma_digit_char(n);
        assert(decimal(n).drop_last() =~= Seq::<char>::empty());
        assert(decimal(n).last() == digit_char(n));
        assert(crate::text::digits_value(Seq::<char>::empty()) == 0);
    } else {
        lemma_decimal(n / 10);
        lemma_digit_char(n % 10);
        let d = decimal(n / 10);
        assert(decimal(n).drop_last() =~= d);
        assert(decimal(n).last() == digit_char(n % 10));
        assert(crate::text::digits_value(decimal(n)) == (n / 10) * 10 + n % 10);
        assert((n / 10) * 10 + n % 10 == n) by (nonlinear_arith);
        assert(decimal(n)[0] == d[0]);
        assert forall|i: int| 0 <= i < decimal(n).len() implies crate::text::is_digit(#[trigger] decimal(n)[i]) by {
            if i < d.len() {
                assert(decimal(n)[i] == d[i]);
            }
        }
    }
}

/// The timeout of the decimal numeral of a number that fits in `u64` is
/// that number, with or without a leading `+`; a value holding a character
/// that is neither a digit nor `+` gives 0, and so does an empty value.
pub proof fn lemma_timeout_of_numeral(n: u64, text: Seq<char>)
    ensures
        spec_timeout(decimal(n as nat)) == n,
        spec_timeout(seq!['+'] + decimal(n as nat)) == n,
        spec_timeout(Seq::<char>::empty()) == 0,
        (exists|i: int| 0 <= i < text.len() && !crate::text::is_digit(#[trigger] text[i]) && text[i] != '+')
            ==> spec_timeout(text) == 0,
{
    lemma_decimal(n as nat);
    let d = decimal(n as nat);
    assert((seq!['+'] + d).drop_first() =~= d);
    if exists|i: int| 0 <= i < text.len() && !crate::text::is_digit(#[trigger] text[i]) && text[i] != '+' {
        let i = choose|i: int| 0 <= i < text.len() && !crate::text::is_digit(#[trigger] text[i]) && text[i] != '+';
        let w = crate::text::without_plus(text);
        if text.len() > 0 && text[0] == '+' {
            assert(i > 0);
            assert(w[i - 1] == text[i]);
        } else {
            assert(w[i] == text[i]);
        }
    }
}

/// The maximum-speed address is the configured name under the avatar
/// parameter prefix; without one, the stand-in value
/// `/avatar/parameters/max_speed` is itself put under the prefix.
pub proof fn lemma_max_speed_address(name: Seq<char>)
    ensures
        spec_max_speed_address(Some(name)) == avatar_prefix() + name,
        spec_max_speed_address(None) == avatar_prefix() + avatar_prefix() + seq!['m', 'a', 'x', '_', 's', 'p', 'e', 'e', 'd'],
        spec_max_speed_address(None).len() == 47,
{
    assert(spec_max_speed_address(None) =~= avatar_prefix() + avatar_prefix() + seq!['m', 'a', 'x', '_', 's', 'p', 'e', 'e', 'd']);
}

/// Each word of the proximity setting becomes one address, in order: the
/// avatar parameter prefix followed by the word.
pub proof fn lemma_parameter_addresses(text: Seq<char>, i: int)
    ensures
        spec_parameter_addresses(text).len() == spec_split_whitespace(text).len(),
        0 <= i < spec_split_whitespace(text).len() ==> spec_parameter_addresses(text)[i]
            == avatar_prefix() + spec_split_whitespace(text)[i],
{
}

/// The timeout in seconds that a configured value gives: its number, or 0
/// where it is not one.
pub open spec fn spec_timeout(text: Seq<char>) -> u64 {
    match spec_parse_u64(text) {
        Some(t) => t,
        None => 0,
    }
}

/// The candidate device addresses: the words of `device_ips`, or none
/// where the key is missing.
pub open spec fn spec_ip_candidates(values: ConfigValues) -> Seq<Seq<char>> {
    match values.device_ips {
        Some(ips) => spec_split_whitespace(ips@),
        None => Seq::empty(),
    }
}

/// The first problem that stops `Config::from_values` from building the
/// configuration, in the order in which `Config::load` reads the settings;
/// `None` where there is none.
pub open spec fn spec_config_error(values: ConfigValues, valid: Seq<bool>) -> Option<ConfigError> {
    if values.device_ips is None {
        Some(ConfigError::MissingKey(ConfigKey::DeviceIps))
    } else if valid.len() != spec_ip_candidates(values).len() {
        Some(ConfigError::FlagCountMismatch)
    } else if select_valid(spec_ip_candidates(values), valid).len() == 0 {
        Some(ConfigError::NoDeviceUris)
    } else if values.min_speed is None {
        Some(ConfigError::MissingKey(ConfigKey::MinSpeed))
    } else if values.max_speed is None {
        Some(ConfigError::MissingKey(ConfigKey::MaxSpeed))
    } else if values.max_speed_scale is None {
        Some(ConfigError::MissingKey(ConfigKey::MaxSpeedScale))
    } else if values.port_rx is None {
        Some(ConfigError::MissingKey(ConfigKey::PortRx))
    } else if values.proximity_parameters_multi is None {
        Some(ConfigError::MissingKey(ConfigKey::ProximityParametersMulti))
    } else if values.timeout is None {
        Some(ConfigError::MissingKey(ConfigKey::Timeout))
    } else {
        None
    }
}

/// The first problem that stops `Config::load_config` from building the
/// configuration, in the order in which the router's `load_config` reads
/// the settings; `None` where there is none. A device list with no valid
/// address is no problem there.
pub open spec fn spec_router_config_error(values: ConfigValues, valid: Seq<bool>) -> Option<ConfigError> {
    if values.device_ips is None {
        Some(ConfigError::MissingKey(ConfigKey::DeviceIps))
    } else if valid.len() != spec_ip_candidates(values).len() {
        Some(ConfigError::FlagCountMismatch)
    } else if values.proximity_parameters_multi is None {
        Some(ConfigError::MissingKey(ConfigKey::ProximityParametersMulti))
    } else if values.min_speed is None {
        Some(ConfigError::MissingKey(ConfigKey::MinSpeed))
    } else if values.max_speed is None {
        Some(ConfigError::MissingKey(ConfigKey::MaxSpeed))
    } else if values.max_speed_scale is None {
        Some(ConfigError::MissingKey(ConfigKey::MaxSpeedScale))
    } else if values.port_rx is None {
        Some(ConfigError::MissingKey(ConfigKey::PortRx))
    } else if values.timeout is None {
        Some(ConfigError::MissingKey(ConfigKey::Timeout))
    } else {
        None
    }
}

/// Whether `values` has no value for `key`.
pub open spec fn key_missing(values: ConfigValues, key: ConfigKey) -> bool {
    match key {
        ConfigKey::DeviceIps => values.device_ips is None,
        ConfigKey::MinSpeed => values.min_speed is None,
        ConfigKey::MaxSpeed => values.max_speed is None,
        ConfigKey::MaxSpeedScale => values.max_speed_scale is None,
        ConfigKey::PortRx => values.port_rx is None,
        ConfigKey::ProximityParametersMulti => values.proximity_parameters_multi is None,
        ConfigKey::Timeout => values.timeout is None,
    }
}

/// Every key the loaders require has a value.
pub open spec fn all_keys_present(values: ConfigValues) -> bool {
    forall|k: ConfigKey| !#[trigger] key_missing(values, k)
}

/// When the loaders succeed, and what their errors mean: both need every
/// required key and one flag per candidate address; `from_values` also
/// needs a flag to be set, `load_config` does not. A missing key is only
/// reported when it is missing, a missing `device_ips` first, and no valid
/// device is only reported when every flag is clear.
pub proof fn lemma_loaders_succeed(values: ConfigValues, valid: Seq<bool>)
    ensures
        spec_config_error(values, valid) is None <==> (all_keys_present(values) && valid.len()
            == spec_ip_candidates(values).len() && count_set(valid) > 0),
        spec_router_config_error(values, valid) is None <==> (all_keys_present(values)
            && valid.len() == spec_ip_candidates(values).len()),
        forall|k: ConfigKey| spec_config_error(values, valid) == Some(ConfigError::MissingKey(k))
            ==> #[trigger] key_missing(values, k),
        forall|k: ConfigKey| spec_router_config_error(values, valid) == Some(ConfigError::MissingKey(k))
            ==> #[trigger] key_missing(values, k),
        key_missing(values, ConfigKey::DeviceIps) ==> spec_config_error(values, valid) == Some(
            ConfigError::MissingKey(ConfigKey::DeviceIps),
        ) && spec_router_config_error(values, valid) == Some(ConfigError::MissingKey(ConfigKey::DeviceIps)),
        spec_config_error(values, valid) == Some(ConfigError::NoDeviceUris) ==> valid.len()
            == spec_ip_candidates(values).len() && count_set(valid) == 0,
        spec_router_config_error(values, valid) != Some(ConfigError::NoDeviceUris),
{
    if valid.len() == spec_ip_candidates(values).len() {
        lemma_select_valid_keeps_every_valid(spec_ip_candidates(values), valid);
    }
    if !all_keys_present(values) {
        let k = choose|k: ConfigKey| #[trigger] key_missing(values, k);
        assert(key_missing(values, k));
    } else {
        assert(!key_missing(values, ConfigKey::DeviceIps));
        assert(!key_missing(values, ConfigKey::MinSpeed));
        assert(!key_missing(values, ConfigKey::MaxSpeed));
        assert(!key_missing(values, ConfigKey::MaxSpeedScale));
        assert(!key_missing(values, ConfigKey::PortRx));
        assert(!key_missing(values, ConfigKey::ProximityParametersMulti));
        assert(!key_missing(values, ConfigKey::Timeout));
    }
}

/// The value of a key that must be present, or the error naming the key.
fn required(value: &Option<String>, key: ConfigKey) -> (r: Result<String, ConfigError>)
    ensures
        value is None ==> r == Err::<String, ConfigError>(ConfigError::MissingKey(key)),
        value is Some ==> r is Ok && r->Ok_0@ == value->0@,
{
    match value {
        Some(v) => Ok(v.clone()),
        None => Err(ConfigError::MissingKey(key)),
    }
}

/// The device addresses that are kept: the candidates flagged valid. Fails
/// where `device_ips` is missing or the flags do not match the candidates.
fn kept_devices(values: &ConfigValues, valid: &Vec<bool>) -> (r: Result<Vec<String>, ConfigError>)
    ensures
        values.device_ips is None ==> r == Err::<Vec<String>, ConfigError>(
            ConfigError::MissingKey(ConfigKey::DeviceIps),
        ),
        values.device_ips is Some && valid@.len() != spec_ip_candidates(*values).len() ==> r
            == Err::<Vec<String>, ConfigError>(ConfigError::FlagCountMismatch),
        values.device_ips is Some && valid@.len() == spec_ip_candidates(*values).len() ==> r is Ok
            && strings_view(r->Ok_0@) == select_valid(spec_ip_candidates(*values), valid@),
{
    if values.device_ips.is_none() {
        return Err(ConfigError::MissingKey(ConfigKey::DeviceIps));
    }
    let candidates = device_ip_candidates(values);
    if candidates.len() != valid.len() {
        return Err(ConfigError::FlagCountMismatch);
    }
    Ok(load_headpat_device_uris(&candidates, valid))
}

/// The router's settings. The speed settings are kept as the text of
/// their configured values.
#[derive(Debug, Clone)]
pub struct Config {
    /// The IP addresses of the devices.
    pub headpat_device_uris: Vec<String>,
    /// `[Config] min_speed`, as written.
    pub min_speed: String,
    /// `[Config] max_speed`, as written.
    pub max_speed: String,
    /// `[Config] max_speed_scale`, as written.
    pub speed_scale: String,
    /// The UDP port on which OSC messages arrive.
    pub port_rx: String,
    /// The avatar parameter address that drives each device, in order.
    pub proximity_parameters_multi: Vec<String>,
    /// The avatar parameter address that sets the maximum speed.
    pub max_speed_parameter_address: String,
    /// Seconds of silence after which a device is stopped.
    pub timeout_setting: u64,
    /// The websocket address of the Twitch integration; empty when unset.
    pub twitch_integration_url: String,
}

impl Config {
    /// A usable configuration names at least one device.
    pub open spec fn wf(self) -> bool {
        self.headpat_device_uris@.len() > 0
    }

    /// The configuration built from `values` and the IP validity flags of
    /// the candidate device addresses.
    pub open spec fn built_from(self, values: ConfigValues, valid: Seq<bool>) -> bool {
        &&& strings_view(self.headpat_device_uris@) == select_valid(spec_ip_candidates(values), valid)
        &&& self.min_speed@ == values.min_speed->0@
        &&& self.max_speed@ == values.max_speed->0@
        &&& self.speed_scale@ == values.max_speed_scale->0@
        &&& self.port_rx@ == values.port_rx->0@
        &&& strings_view(self.proximity_parameters_multi@) == spec_parameter_addresses(
            values.proximity_parameters_multi->0@,
        )
        &&& self.max_speed_parameter_address@ == spec_max_speed_address(
            opt_view(values.max_speed_parameter),
        )
        &&& self.timeout_setting == spec_timeout(values.timeout->0@)
        &&& self.twitch_integration_url@ == (match values.twitch_integration_url {
            Some(u) => u@,
            None => Seq::<char>::empty(),
        })
    }

    /// Builds the configuration as `Config::load` does, from the raw values
    /// and, for each candidate device address (see
    /// `device_ip_candidates`), whether it is a valid IP address. Only valid
    /// addresses are kept, and at least one must be.
    pub fn from_values(values: &ConfigValues, valid: &Vec<bool>) -> (r: Result<Config, ConfigError>)
        ensures
            spec_config_error(*values, valid@) is Some ==> r == Err::<Config, ConfigError>(
                spec_config_error(*values, valid@)->0,
            ),
            spec_config_error(*values, valid@) is None ==> r is Ok && r->Ok_0.built_from(
                *values,
                valid@,
            ) && r->Ok_0.wf(),
    {
        let headpat_device_uris = kept_devices(values, valid)?;
        if headpat_device_uris.len() == 0 {
            return Err(ConfigError::NoDeviceUris);
        }
        let min_speed = required(&values.min_speed, ConfigKey::MinSpeed)?;
        let max_speed = required(&values.max_speed, ConfigKey::MaxSpeed)?;
        let speed_scale = required(&values.max_speed_scale, ConfigKey::MaxSpeedScale)?;
        let port_rx = required(&values.port_rx, ConfigKey::PortRx)?;
        let proximity = required(
            &values.proximity_parameters_multi,
            ConfigKey::ProximityParametersMulti,
        )?;
        let timeout = required(&values.timeout, ConfigKey::Timeout)?;
        Ok(Self::assemble(values, headpat_device_uris, min_speed, max_speed, speed_scale, port_rx, proximity, timeout))
    }

    /// Builds the configuration as the router's `load_config` does: like
    /// `from_values`, but a device list with no valid address is kept, empty,
    /// and the keys are required in the router's order.
    pub fn load_config(values: &ConfigValues, valid: &Vec<bool>) -> (r: Result<Config, ConfigError>)
        ensures
            spec_router_config_error(*values, valid@) is Some ==> r == Err::<Config, ConfigError>(
                spec_router_config_error(*values, valid@)->0,
            ),
            spec_router_config_error(*values, valid@) is None ==> r is Ok && r->Ok_0.built_from(
                *values,
                valid@,
            ),
    {
        let headpat_device_uris = kept_devices(values, valid)?;
        let proximity = required(
            &values.proximity_parameters_multi,
            ConfigKey::ProximityParametersMulti,
        )?;
        let min_speed = required(&values.min_speed, ConfigKey::MinSpeed)?;
        let max_speed = required(&values.max_speed, ConfigKey::MaxSpeed)?;
        let speed_scale = required(&values.max_speed_scale, ConfigKey::MaxSpeedScale)?;
        let port_rx = required(&values.port_rx, ConfigKey::PortRx)?;
        let timeout = required(&values.timeout, ConfigKey::Timeout)?;
        Ok(Self::assemble(values, headpat_device_uris, min_speed, max_speed, speed_scale, port_rx, proximity, timeout))
    }

    /// The configuration from the kept devices and the required values.
    fn assemble(
        values: &ConfigValues,
        headpat_device_uris: Vec<String>,
        min_speed: String,
        max_speed: String,
        speed_scale: String,
        port_rx: String,
        proximity: String,
        timeout: String,
    ) -> (r: Config)
        requires
            values.min_speed is Some && min_speed@ == values.min_speed->0@,
            values.max_speed is Some && max_speed@ == values.max_speed->0@,
            values.max_speed_scale is Some && speed_scale@ == values.max_speed_scale->0@,
            values.port_rx is Some && port_rx@ == values.port_rx->0@,
            values.proximity_parameters_multi is Some && proximity@
                == values.proximity_parameters_multi->0@,
            values.timeout is Some && timeout@ == values.timeout->0@,
        ensures
            r.headpat_device_uris == headpat_device_uris,
            r.min_speed@ == values.min_speed->0@,
            r.max_speed@ == values.max_speed->0@,
            r.speed_scale@ == values.max_speed_scale->0@,
            r.port_rx@ == values.port_rx->0@,
            strings_view(r.proximity_parameters_multi@) == spec_parameter_addresses(
                values.proximity_parameters_multi->0@,
            ),
            r.max_speed_parameter_address@ == spec_max_speed_address(opt_view(values.max_speed_parameter)),
            r.timeout_setting == spec_timeout(values.timeout->0@),
            r.twitch_integration_url@ == (match values.twitch_integration_url {
                Some(u) => u@,
                None => Seq::<char>::empty(),
            }),
    {
        let twitch_integration_url = match &values.twitch_integration_url {
            Some(u) => u.clone(),
            None => String::new(),
        };
        Config {
            headpat_device_uris,
            min_speed,
            max_speed,
            speed_scale,
            port_rx,
            proximity_parameters_multi: load_proximity_parameters_multi(proximity.as_str()),
            max_speed_parameter_address: load_max_speed_parameters_address(&values.max_speed_parameter),
            timeout_setting: load_timeout(timeout.as_str()),
            twitch_integration_url,
        }
    }
}

/// The line of the device listing for a parameter and its device.
pub open spec fn spec_device_map_line(parameter: Seq<char>, device: Seq<char>) -> Seq<char> {
    seq![' '] + trim_start_all(parameter, avatar_prefix()) + seq![' ', '=', '>', ' '] + device
}

impl Config {
    /// The device listing shown at start-up: for each proximity parameter,
    /// its name and the device at the same position. Every parameter needs
    /// a device.
    pub fn device_map_lines(&self) -> (r: Vec<String>)
        requires
            self.proximity_parameters_multi@.len() <= self.headpat_device_uris@.len(),
        ensures
            r@.len() == self.proximity_parameters_multi@.len(),
            forall|i: int| 0 <= i < r@.len() ==> #[trigger] r@[i]@ == spec_device_map_line(
                self.proximity_parameters_multi@[i]@,
                self.headpat_device_uris@[i]@,
            ),
    {
        let mut r: Vec<String> = Vec::new();
        let mut i: usize = 0;
        while i < self.proximity_parameters_multi.len()
            invariant
                self.proximity_parameters_multi@.len() <= self.headpat_device_uris@.len(),
                i <= self.proximity_parameters_multi@.len(),
                r@.len() == i,
                forall|k: int| 0 <= k < i ==> #[trigger] r@[k]@ == spec_device_map_line(
                    self.proximity_parameters_multi@[k]@,
                    self.headpat_device_uris@[k]@,
                ),
            decreases self.proximity_parameters_multi@.len() - i,
        {
            proof {
                reveal_strlit(" ");
                reveal_strlit(" => ");
            }
            let name = parameter_name(self.proximity_parameters_multi[i].as_str());
            let line = String::from_str(" ").concat(name.as_str()).concat(" => ").concat(
                self.headpat_device_uris[i].as_str(),
            );
            assert(" "@ =~= seq![' ']);
            assert(" => "@ =~= seq![' ', '=', '>', ' ']);
            r.push(line);
            i = i + 1;
        }
        r
    }
}

/// The candidate device addresses: the whitespace-separated words of
/// `[Setup] device_ips`, or none where the key is missing.
pub fn device_ip_candidates(values: &ConfigValues) -> (r: Vec<String>)
    ensures
        strings_view(r@) == spec_ip_candidates(*values),
{
    match &values.device_ips {
        Some(ips) => split_whitespace(ips.as_str()),
        None => Vec::new(),
    }
}

/// The candidates whose flag says they are valid IP addresses, in order.
pub fn load_headpat_device_uris(candidates: &Vec<String>, valid: &Vec<bool>) -> (r: Vec<String>)
    requires
        candidates@.len() == valid@.len(),
    ensures
        strings_view(r@) == select_valid(strings_view(candidates@), valid@),
{
    let mut r: Vec<String> = Vec::new();
    let mut i: usize = 0;
    while i < candidates.len()
        invariant
            candidates@.len() == valid@.len(),
            i <= candidates@.len(),
            strings_view(r@) == select_valid(
                strings_view(candidates@).take(i as int),
                valid@.take(i as int),
            ),
        decreases candidates@.len() - i,
    {
        proof {
            let t = strings_view(candidates@);
            assert(t.take(i + 1).drop_last() =~= t.take(i as int));
            assert(valid@.take(i + 1).drop_last() =~= valid@.take(i as int));
            assert(t.take(i + 1).last() == candidates@[i as int]@);
        }
        if valid[i] {
            r.push(candidates[i].clone());
            assert(strings_view(r@) =~= select_valid(
                strings_view(candidates@).take(i + 1),
                valid@.take(i + 1),
            ));
        }
        i = i + 1;
    }
    assert(strings_view(candidates@).take(i as int) =~= strings_view(candidates@));
    assert(valid@.take(i as int) =~= valid@);
    r
}

/// The avatar parameter address of each whitespace-separated word of
/// `[Setup] proximity_parameters_multi`, in order.
pub fn load_proximity_parameters_multi(text: &str) -> (r: Vec<String>)
    ensures
        strings_view(r@) == spec_parameter_addresses(text@),
{
    let words = split_whitespace(text);
    let mut r: Vec<String> = Vec::new();
    let mut i: usize = 0;
    while i < words.len()
        invariant
            i <= words@.len(),
            r@.len() == i,
            forall|k: int| 0 <= k < i ==> #[trigger] r@[k]@ == avatar_prefix() + words@[k]@,
        decreases words@.len() - i,
    {
        let address = avatar_parameter(words[i].as_str());
        r.push(address);
        i = i + 1;
    }
    proof {
        let expected = spec_parameter_addresses(text@);
        assert(strings_view(words@) == spec_split_whitespace(text@));
        assert forall|k: int| 0 <= k < r@.len() implies strings_view(r@)[k] == expected[k] by {
            assert(strings_view(words@)[k] == words@[k]@);
        }
        assert(strings_view(r@) =~= expected);
    }
    r
}

/// The address of the maximum-speed parameter: `[Setup] max_speed_parameter`
/// behind the avatar parameter prefix, with a stand-in where it is missing.
pub fn load_max_speed_parameters_address(name: &Option<String>) -> (r: String)
    ensures
        r@ == spec_max_speed_address(opt_view(*name)),
{
    match name {
        Some(n) => avatar_parameter(n.as_str()),
        None => {
            proof {
                reveal_strlit("/avatar/parameters/max_speed");
            }
            let fallback = "/avatar/parameters/max_speed";
            assert(fallback@ =~= default_max_speed_parameter());
            avatar_parameter(fallback)
        },
    }
}

/// The timeout in seconds: the configured number, or 0 where the value is
/// not an unsigned number.
pub fn load_timeout(text: &str) -> (r: u64)
    ensures
        r == spec_timeout(text@),
{
    match parse_u64(text) {
        Some(t) => t,
        None => 0,
    }
}

} // verus!
