//! The settings of the program.

use crate::frame::ProtoVer;
use crate::text::{chars_of, same_text};
use vstd::prelude::*;

verus! {

/// All settings.
#[derive(Debug)]
pub struct Config {
    pub device: DeviceConfig,
    pub mqtt: Option<MqttConfig>,
    pub log: Option<LogConfig>,
    pub poll_secs: Option<u64>,
    /// The subnet-directed broadcast address that discovery uses in place of the one derived
    /// from the address of the local interface.
    pub bcast_addr: Option<String>,
}

/// The kinds of meters.
#[derive(Clone, Copy, Debug, PartialEq, Eq, Structural)]
pub enum DeviceType {
    At4pw,
    Ct,
}

/// The meter.
#[derive(Debug)]
pub struct DeviceConfig {
    pub ip: String,
    pub id: String,
    pub local_key: String,
    pub version: String,
    pub device_type: Option<DeviceType>,
    pub mac: Option<String>,
}

/// The broker to which readings go.
#[derive(Debug)]
pub struct MqttConfig {
    pub host: String,
    pub port: u16,
    pub node_id: String,
}

/// The file to which readings go.
#[derive(Debug)]
pub struct LogConfig {
    pub file: String,
    pub max_lines: Option<u64>,
    /// Such as `5h`, `1d` or `30m`.
    pub rotate_interval: Option<String>,
}

/// The protocol version where none is set.
pub fn default_version() -> (r: String)
    ensures
        r@ == "3.5"@,
{
    "3.5".to_string()
}

/// The port of the broker where none is set.
pub fn default_mqtt_port() -> (r: u16)
    ensures
        r == 1883,
{
    1883
}

/// The polling interval where none is set.
pub fn default_poll_secs() -> (r: Option<u64>)
    ensures
        r == Some(10u64),
{
    Some(10)
}

/// The name of the node where none is set.
pub fn default_node_id() -> (r: String)
    ensures
        r@ == "at4pw"@,
{
    "at4pw".to_string()
}

/// The version that a text names, where it names one.
pub open spec fn known_version(s: Seq<char>) -> Option<ProtoVer> {
    if s == "3.3"@ {
        Some(ProtoVer::V33)
    } else if s == "3.4"@ {
        Some(ProtoVer::V34)
    } else if s == "3.5"@ {
        Some(ProtoVer::V35)
    } else {
        None
    }
}

/// A version is known by its name, and by nothing else.
pub proof fn versions_have_names(s: Seq<char>)
    ensures
        known_version(s) == Some(ProtoVer::V33) <==> s == seq!['3', '.', '3'],
        known_version(s) == Some(ProtoVer::V34) <==> s == seq!['3', '.', '4'],
        known_version(s) == Some(ProtoVer::V35) <==> s == seq!['3', '.', '5'],
{
    reveal_strlit("3.3");
    reveal_strlit("3.4");
    reveal_strlit("3.5");
    let (a, b, c) = (seq!['3', '.', '3'], seq!['3', '.', '4'], seq!['3', '.', '5']);
    assert("3.3"@ =~= a && "3.4"@ =~= b && "3.5"@ =~= c);
    assert(a[2] != b[2] && b[2] != c[2] && a[2] != c[2]);
}

/// The version to speak: the one that the text names, else 3.5. The second part says whether
/// the text named one.
pub fn parse_version(s: &str) -> (r: (ProtoVer, bool))
    ensures
        match known_version(s@) {
            Some(v) => r == (v, true),
            None => r == (ProtoVer::V35, false),
        },
{
    if same_text(s, "3.3") {
        (ProtoVer::V33, true)
    } else if same_text(s, "3.4") {
        (ProtoVer::V34, true)
    } else if same_text(s, "3.5") {
        (ProtoVer::V35, true)
    } else {
        (ProtoVer::V35, false)
    }
}

// ── What is asked for ──

/// What the program is asked to do.
#[derive(Clone, Copy, Debug, PartialEq, Eq, Structural)]
pub enum Command {
    Status,
    Json,
    On,
    Off,
    Server,
    Unknown,
}

/// The command that a word stands for.
pub open spec fn command_of(s: Seq<char>) -> Command {
    if s == "server"@ || s == "mqtt"@ {
        Command::Server
    } else if s == "status"@ {
        Command::Status
    } else if s == "json"@ {
        Command::Json
    } else if s == "on"@ {
        Command::On
    } else if s == "off"@ {
        Command::Off
    } else {
        Command::Unknown
    }
}

/// A command is known by its word, and by nothing else; the server has two words.
pub proof fn commands_have_words(s: Seq<char>)
    ensures
        command_of(s) == Command::Status <==> s == "status"@,
        command_of(s) == Command::Json <==> s == "json"@,
        command_of(s) == Command::On <==> s == "on"@,
        command_of(s) == Command::Off <==> s == "off"@,
        command_of(s) == Command::Server <==> s == "server"@ || s == "mqtt"@,
{
    reveal_strlit("server");
    reveal_strlit("mqtt");
    reveal_strlit("status");
    reveal_strlit("json");
    reveal_strlit("on");
    reveal_strlit("off");
    assert("server"@[1] == 'e' && "status"@[1] == 't');
    assert("mqtt"@[0] == 'm' && "json"@[0] == 'j');
    assert("on"@.len() == 2 && "off"@.len() == 3 && "json"@.len() == 4 && "status"@.len() == 6);
}

/// Reads a command.
pub fn parse_command(s: &str) -> (r: Command)
    ensures
        r == command_of(s@),
{
    if same_text(s, "server") || same_text(s, "mqtt") {
        Command::Server
    } else if same_text(s, "status") {
        Command::Status
    } else if same_text(s, "json") {
        Command::Json
    } else if same_text(s, "on") {
        Command::On
    } else if same_text(s, "off") {
        Command::Off
    } else {
        Command::Unknown
    }
}

/// An ASCII capital letter as a small one; other characters as they are.
pub open spec fn small(c: char) -> char {
    if 'A' <= c <= 'Z' {
        (c as int + 32) as char
    } else {
        c
    }
}

/// Whether an address is to be looked for: it is the word `auto`, in any case.
pub open spec fn is_auto(ip: Seq<char>) -> bool {
    ip.map_values(|c: char| small(c)) == seq!['a', 'u', 't', 'o']
}

/// An address is looked for where each of its four characters is that of the word `auto`, as a
/// capital letter or a small one.
pub proof fn auto_in_any_case(ip: Seq<char>)
    ensures
        is_auto(ip) <==> ip.len() == 4 && (ip[0] == 'a' || ip[0] == 'A') && (ip[1] == 'u' || ip[1]
            == 'U') && (ip[2] == 't' || ip[2] == 'T') && (ip[3] == 'o' || ip[3] == 'O'),
{
    let lower = ip.map_values(|c: char| small(c));
    let word = seq!['a', 'u', 't', 'o'];
    if is_auto(ip) {
        assert(lower.len() == 4);
        assert(lower[0] == small(ip[0]) && lower[1] == small(ip[1]) && lower[2] == small(ip[2])
            && lower[3] == small(ip[3]));
    }
    if ip.len() == 4 && (ip[0] == 'a' || ip[0] == 'A') && (ip[1] == 'u' || ip[1] == 'U') && (ip[2]
        == 't' || ip[2] == 'T') && (ip[3] == 'o' || ip[3] == 'O') {
        assert(lower =~= word);
    }
}

fn small_char(c: char) -> (r: char)
    ensures
        r == small(c),
{
    if 'A' <= c && c <= 'Z' {
        ((c as u8) + 32) as char
    } else {
        c
    }
}

/// Decides [`is_auto`].
pub fn wants_search(ip: &str) -> (r: bool)
    ensures
        r == is_auto(ip@),
{
    let chars = chars_of(ip);
    let ghost lower = ip@.map_values(|c: char| small(c));
    if chars.len() != 4 {
        assert(lower.len() != 4);
        return false;
    }
    assert(lower.len() == 4);
    assert(lower[0] == small(chars@[0]) && lower[1] == small(chars@[1]) && lower[2] == small(
        chars@[2],
    ) && lower[3] == small(chars@[3]));
    let r: bool = small_char(chars[0]) == 'a' && small_char(chars[1]) == 'u' && small_char(chars[2])
        == 't' && small_char(chars[3]) == 'o';
    if r {
        assert(lower =~= seq!['a', 'u', 't', 'o']);
    } else {
        assert(lower != seq!['a', 'u', 't', 'o']);
    }
    r
}

impl Config {
    /// The polling interval in seconds.
    pub fn poll_interval(&self) -> (r: u64)
        ensures
            r == (match self.poll_secs {
                Some(secs) => secs,
                None => 10,
            }),
    {
        match self.poll_secs {
            Some(secs) => secs,
            None => 10,
        }
    }

    /// Whether there is anything that a server could pass readings on to.
    pub fn can_serve(&self) -> (r: bool)
        ensures
            r == (self.mqtt is Some || self.log is Some),
    {
        self.mqtt.is_some() || self.log.is_some()
    }
}

/// The address and port of a device.
pub fn device_addr(ip: &str) -> (r: String)
    ensures
        r@ == ip@ + ":6668"@,
{
    let mut out = ip.to_string();
    out.append(":6668");
    out
}

} // verus!
