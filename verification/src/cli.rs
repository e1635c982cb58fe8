use vstd::prelude::*;

use crate::frame::bytes_eq;

verus! {

/// The bytes of the extension "yaml".
pub open spec fn yaml_ext() -> Seq<u8> {
    seq![121u8, 97, 109, 108]
}

/// The bytes of the extension "toml".
pub open spec fn toml_ext() -> Seq<u8> {
    seq![116u8, 111, 109, 108]
}

/// The bytes of the scheme prefix "http://".
pub open spec fn http_prefix() -> Seq<u8> {
    seq![104u8, 116, 116, 112, 58, 47, 47]
}

/// Which parser a configuration file's extension selects.
#[derive(Clone, Copy, PartialEq, Eq, Structural, Debug)]
pub enum ConfigFormat {
    Yaml,
    Toml,
    Unknown,
}

/// Selects the configuration parser by file extension: "yaml" or "toml",
/// anything else is refused by the loader.
pub fn config_format(ext: &Vec<u8>) -> (r: ConfigFormat)
    ensures
        ext@ == yaml_ext() ==> r == ConfigFormat::Yaml,
        ext@ == toml_ext() ==> r == ConfigFormat::Toml,
        (ext@ != yaml_ext() && ext@ != toml_ext()) ==> r == ConfigFormat::Unknown,
{
    let yaml: Vec<u8> = vec![121u8, 97, 109, 108];
    let toml: Vec<u8> = vec![116u8, 111, 109, 108];
    assert(yaml@ =~= yaml_ext());
    assert(toml@ =~= toml_ext());
    if bytes_eq(ext, &yaml) {
        ConfigFormat::Yaml
    } else if bytes_eq(ext, &toml) {
        ConfigFormat::Toml
    } else {
        ConfigFormat::Unknown
    }
}

/// A logging level, from quietest to loudest.
#[derive(Clone, Copy, PartialEq, Eq, Structural, Debug)]
pub enum LogLevel {
    Error,
    Warn,
    Info,
    Debug,
    Trace,
}

/// The options every subcommand shares, as plain values.
pub struct SharedOptions {
    /// The control endpoint's bind address, as text.
    pub control: Vec<u8>,
    pub disable_stdout: bool,
    pub disable_control: bool,
    pub daemon: bool,
    pub forever: bool,
    pub verbose: bool,
    pub default_level: Option<LogLevel>,
    /// Path of the PID file, as text.
    pub pidfile: Vec<u8>,
}

/// The base of a configuration record, filled from the shared options.
pub struct BaseConfig {
    pub control: Vec<u8>,
    pub disable_stdout: bool,
    pub disable_control: bool,
    pub default_level: Option<LogLevel>,
    pub pidfile: Vec<u8>,
}

/// Running detached and supervising a child forever exclude each other.
pub fn shared_conflict(shared: &SharedOptions) -> (r: bool)
    ensures
        r == (shared.daemon && shared.forever),
{
    shared.daemon && shared.forever
}

/// Carries the shared options into a configuration record. Verbose output
/// forces the loudest level; otherwise the chosen level stands.
pub fn apply_shared(shared: SharedOptions) -> (r: BaseConfig)
    ensures
        r.control@ == shared.control@,
        r.disable_stdout == shared.disable_stdout,
        r.disable_control == shared.disable_control,
        r.pidfile@ == shared.pidfile@,
        shared.verbose ==> r.default_level == Some(LogLevel::Trace),
        !shared.verbose ==> r.default_level == shared.default_level,
{
    let default_level = if shared.verbose {
        Some(LogLevel::Trace)
    } else {
        shared.default_level
    };
    BaseConfig {
        control: shared.control,
        disable_stdout: shared.disable_stdout,
        disable_control: shared.disable_control,
        default_level,
        pidfile: shared.pidfile,
    }
}

/// The URL of the control endpoint at a control address: "http://" and
/// the address.
pub fn control_url(control: &Vec<u8>) -> (r: Vec<u8>)
    ensures
        r@ == http_prefix() + control@,
{
    let mut out: Vec<u8> = vec![104u8, 116, 116, 112, 58, 47, 47];
    assert(out@ =~= http_prefix());
    crate::codec::append_bytes(&mut out, control);
    out
}

/// Where a stop or reload command finds the control endpoint.
#[derive(Clone, Copy, PartialEq, Eq, Structural, Debug)]
pub enum ControlTarget {
    /// Read the configuration file and use its control address.
    FromConfig,
    /// Use the given URL.
    FromUrl,
    /// Fall back to the PID file and signal the process directly.
    FromPidfile,
}

/// How a stop command finds its target: a configuration file first, then
/// an explicit URL, then the PID file.
pub fn stop_target(has_config: bool, has_url: bool) -> (r: ControlTarget)
    ensures
        has_config ==> r == ControlTarget::FromConfig,
        !has_config && has_url ==> r == ControlTarget::FromUrl,
        !has_config && !has_url ==> r == ControlTarget::FromPidfile,
{
    if has_config {
        ControlTarget::FromConfig
    } else if has_url {
        ControlTarget::FromUrl
    } else {
        ControlTarget::FromPidfile
    }
}

/// How a reload command finds its target: a configuration file first,
/// then an explicit URL; with neither there is nothing to reload against.
pub fn reload_target(has_config: bool, has_url: bool) -> (r: Option<ControlTarget>)
    ensures
        has_config ==> r == Some(ControlTarget::FromConfig),
        !has_config && has_url ==> r == Some(ControlTarget::FromUrl),
        !has_config && !has_url ==> r is None,
{
    if has_config {
        Some(ControlTarget::FromConfig)
    } else if has_url {
        Some(ControlTarget::FromUrl)
    } else {
        None
    }
}

/// A byte taken to ASCII lower case.
pub open spec fn lower_byte(b: u8) -> u8 {
    if 65 <= b <= 90 {
        (b + 32) as u8
    } else {
        b
    }
}

/// ASCII lower case of a byte string.
pub fn to_ascii_lower(v: &Vec<u8>) -> (r: Vec<u8>)
    ensures
        r@ == v@.map_values(|b: u8| lower_byte(b)),
{
    let mut out: Vec<u8> = Vec::new();
    let mut i: usize = 0;
    while i < v.len()
        invariant
            0 <= i <= v@.len(),
            out@ == v@.take(i as int).map_values(|b: u8| lower_byte(b)),
        decreases v@.len() - i,
    {
        let b = v[i];
        let low = if 65 <= b && b <= 90 {
            b + 32
        } else {
            b
        };
        proof {
            v@.lemma_map_take_succ(|x: u8| lower_byte(x), i as int);
            out@.lemma_push_map_commute(|x: u8| lower_byte(x), low);
        }
        out.push(low);
        i = i + 1;
    }
    assert(v@.take(v@.len() as int) =~= v@);
    out
}

/// The bytes of the bridge mode "ws2tcp".
pub open spec fn ws2tcp_mode() -> Seq<u8> {
    seq![119u8, 115, 50, 116, 99, 112]
}

/// The bytes of the bridge mode "tcp2ws".
pub open spec fn tcp2ws_mode() -> Seq<u8> {
    seq![116u8, 99, 112, 50, 119, 115]
}

/// The bytes of the bridge mode "tcp2wss".
pub open spec fn tcp2wss_mode() -> Seq<u8> {
    seq![116u8, 99, 112, 50, 119, 115, 115]
}

/// Whether a WebSocket bridge mode is one of the three accepted,
/// whatever its letter case.
pub fn valid_ws_mode(mode: &Vec<u8>) -> (r: bool)
    ensures
        r == {
            let low = mode@.map_values(|b: u8| lower_byte(b));
            low == ws2tcp_mode() || low == tcp2ws_mode() || low == tcp2wss_mode()
        },
{
    let low = to_ascii_lower(mode);
    let a: Vec<u8> = vec![119u8, 115, 50, 116, 99, 112];
    let b: Vec<u8> = vec![116u8, 99, 112, 50, 119, 115];
    let c: Vec<u8> = vec![116u8, 99, 112, 50, 119, 115, 115];
    assert(a@ =~= ws2tcp_mode());
    assert(b@ =~= tcp2ws_mode());
    assert(c@ =~= tcp2wss_mode());
    bytes_eq(&low, &a) || bytes_eq(&low, &b) || bytes_eq(&low, &c)
}

} // verus!
