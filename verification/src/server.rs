//! The server: it keeps a connection to the meter, and passes its readings on.
//!
//! The server decides what is to be done, event by event. Connections, clocks and files are kept
//! by the caller, which does what it is told, in order, and reports back.

use crate::base64::PhaseA;
use crate::config::{DeviceConfig, DeviceType, MqttConfig};
use crate::hass::{
    announcements, avail_topic, avail_topic_of, cmd_topic, cmd_topic_of, configs_view,
    discovery_configs, state_topic, state_topic_of,
};
use crate::json::{
    distinct_keys, duplicate_fields, field, fields_of, json_text, key_at_is_first, last_value,
    merging_keeps_keys_distinct, settled, Fields, Json, JsonModel,
};
use crate::meter::{
    clamp_meters_show_their_block, dps_to_state, has_block, is_decimal, is_scaled,
    plug_meters_show_their_data_points, state_has, state_of, state_view, Reading, Shown,
};
use crate::query::{add_dps, only_objects_bring_data_points, with_dps};
use crate::text::{chars_of, same_text, text_of};
use vstd::prelude::*;

verus! {

// ── The broker ──

/// A message for the broker.
#[derive(Debug)]
pub struct Publication {
    pub topic: String,
    pub payload: String,
    /// Whether the broker keeps the message.
    pub retain: bool,
}

/// A [`Publication`] with its texts taken by their view.
pub ghost struct Published {
    pub topic: Seq<char>,
    pub payload: Seq<char>,
    pub retain: bool,
}

impl View for Publication {
    type V = Published;

    open spec fn view(&self) -> Published {
        Published { topic: self.topic@, payload: self.payload@, retain: self.retain }
    }
}

/// The views of messages.
pub open spec fn publications(v: Seq<Publication>) -> Seq<Published> {
    Seq::new(v.len(), |i: int| v[i]@)
}

/// How the broker is used.
#[derive(Debug)]
pub struct MqttSetup {
    pub client_id: String,
    pub host: String,
    pub port: u16,
    pub keep_alive_secs: u64,
    /// What the broker says when the connection breaks.
    pub will: Publication,
    /// What is said first.
    pub greeting: Vec<Publication>,
    /// The topic to listen to.
    pub subscription: Option<String>,
}

/// A [`MqttSetup`] with its texts taken by their view.
pub ghost struct BrokerUse {
    pub client_id: Seq<char>,
    pub host: Seq<char>,
    pub port: u16,
    pub keep_alive_secs: u64,
    pub will: Published,
    pub greeting: Seq<Published>,
    pub subscription: Option<Seq<char>>,
}

impl View for MqttSetup {
    type V = BrokerUse;

    open spec fn view(&self) -> BrokerUse {
        BrokerUse {
            client_id: self.client_id@,
            host: self.host@,
            port: self.port,
            keep_alive_secs: self.keep_alive_secs,
            will: self.will@,
            greeting: publications(self.greeting@),
            subscription: match self.subscription {
                Some(s) => Some(s@),
                None => None,
            },
        }
    }
}

/// A text without the opening brackets at its start.
pub open spec fn unopened(s: Seq<char>) -> Seq<char>
    decreases s.len(),
{
    if s.len() > 0 && s[0] == '[' {
        unopened(s.skip(1))
    } else {
        s
    }
}

/// A text without the closing brackets at its end.
pub open spec fn unclosed(s: Seq<char>) -> Seq<char>
    decreases s.len(),
{
    if s.len() > 0 && s.last() == ']' {
        unclosed(s.drop_last())
    } else {
        s
    }
}

/// Takes the brackets off an address.
pub fn without_brackets(host: &str) -> (r: String)
    ensures
        r@ == unclosed(unopened(host@)),
{
    let chars = chars_of(host);
    let mut i: usize = 0;
    assert(chars@.skip(0) =~= chars@);
    while i < chars.len() && chars[i] == '['
        invariant
            i <= chars@.len(),
            unopened(chars@) == unopened(chars@.skip(i as int)),
        decreases chars@.len() - i,
    {
        assert(chars@.skip(i as int).skip(1) =~= chars@.skip(i + 1));
        i = i + 1;
    }
    let ghost start = chars@.skip(i as int);
    let mut j: usize = chars.len();
    assert(chars@.subrange(i as int, j as int) =~= start);
    while j > i && chars[j - 1] == ']'
        invariant
            i <= j <= chars@.len(),
            unclosed(start) == unclosed(chars@.subrange(i as int, j as int)),
        decreases j,
    {
        assert(chars@.subrange(i as int, j as int).drop_last() =~= chars@.subrange(
            i as int,
            j - 1,
        ));
        j = j - 1;
    }
    text_of(vstd::slice::slice_subrange(chars.as_slice(), i, j))
}

/// The announcements of a meter as messages that the broker keeps.
pub open spec fn announced(node_id: Seq<char>, dev_type: DeviceType) -> Seq<Published> {
    let all = announcements(node_id, dev_type);
    Seq::new(
        all.len(),
        |i: int|
            Published {
                topic: all[i].0,
                payload: json_text(settled(all[i].1)),
                retain: true,
            },
    )
}

/// The message on whether the meter can be reached.
pub open spec fn availability(node_id: Seq<char>, word: Seq<char>) -> Published {
    Published { topic: avail_topic_of(node_id), payload: word, retain: true }
}

/// How the broker is used for a meter.
pub open spec fn broker_use(mqtt: MqttConfig, dev_type: DeviceType) -> BrokerUse {
    let node_id = mqtt.node_id@;
    BrokerUse {
        client_id: "at4pw-"@ + node_id,
        host: unclosed(unopened(mqtt.host@)),
        port: mqtt.port,
        keep_alive_secs: 30,
        will: availability(node_id, "offline"@),
        greeting: announced(node_id, dev_type).push(availability(node_id, "online"@)),
        subscription: if dev_type == DeviceType::At4pw {
            Some(cmd_topic_of(node_id))
        } else {
            None
        },
    }
}

fn availability_message(node_id: &str, word: &str) -> (r: Publication)
    ensures
        r@ == availability(node_id@, word@),
{
    Publication { topic: avail_topic(node_id), payload: word.to_string(), retain: true }
}

/// What a message from the broker asks of the switch.
pub open spec fn switch_order(node_id: Seq<char>, topic: Seq<char>, payload: Seq<u8>) -> Option<bool> {
    if topic != cmd_topic_of(node_id) {
        None
    } else if payload == seq![0x4fu8, 0x4eu8] {
        Some(true)
    } else if payload == seq![0x4fu8, 0x46u8, 0x46u8] {
        Some(false)
    } else {
        None
    }
}

/// Reads what a message from the broker asks of the switch: `ON`, `OFF` or nothing.
pub fn switch_command(node_id: &str, topic: &str, payload: &[u8]) -> (r: Option<bool>)
    ensures
        r == switch_order(node_id@, topic@, payload@),
{
    if !same_text(topic, cmd_topic(node_id).as_str()) {
        return None;
    }
    let on: [u8; 2] = [0x4f, 0x4e];
    let off: [u8; 3] = [0x4f, 0x46, 0x46];
    assert(on@ =~= seq![0x4fu8, 0x4eu8]);
    assert(off@ =~= seq![0x4fu8, 0x46u8, 0x46u8]);
    if crate::bytes::same_bytes(payload, on.as_slice()) {
        Some(true)
    } else if crate::bytes::same_bytes(payload, off.as_slice()) {
        Some(false)
    } else {
        None
    }
}

/// The message with a state.
pub open spec fn state_message(topic: Seq<char>, state: JsonModel) -> Published {
    Published { topic, payload: json_text(settled(state)), retain: false }
}

/// Writes the message with a state; the broker does not keep it.
pub fn state_publication(topic: &str, state: &Json) -> (r: Publication)
    ensures
        r@ == state_message(topic@, state@),
{
    Publication { topic: topic.to_string(), payload: state.to_text(), retain: false }
}

// ── The loop ──

/// The server. Moments are in nanoseconds from any fixed one.
#[derive(Debug)]
pub struct Server {
    pub dev: DeviceConfig,
    pub mqtt: Option<MqttConfig>,
    pub dev_type: DeviceType,
    pub poll_secs: u64,
    /// Whether the address of the meter is looked for.
    pub auto_ip: bool,
    /// The data points that the meter has sent on this connection.
    pub dps: Vec<(String, Json)>,
    pub last_heartbeat: u128,
    pub last_publish: u128,
}

/// What the server works with, its texts taken by their view.
pub ghost struct Service {
    pub ip: Seq<char>,
    /// The name of the node, where there is a broker.
    pub node_id: Option<Seq<char>>,
    pub dev_type: DeviceType,
    pub poll_secs: u64,
    pub auto_ip: bool,
    pub dps: Fields,
    pub last_heartbeat: u128,
    pub last_publish: u128,
}

impl View for Server {
    type V = Service;

    open spec fn view(&self) -> Service {
        Service {
            ip: self.dev.ip@,
            node_id: match self.mqtt {
                Some(m) => Some(m.node_id@),
                None => None,
            },
            dev_type: self.dev_type,
            poll_secs: self.poll_secs,
            auto_ip: self.auto_ip,
            dps: fields_of(self.dps@),
            last_heartbeat: self.last_heartbeat,
            last_publish: self.last_publish,
        }
    }
}

/// What came from the meter.
#[derive(Debug)]
pub enum Incoming {
    Dps(Json),
    Nothing,
    Lost,
}

/// What happened to the server.
#[derive(Debug)]
pub enum ServerEvent {
    Start,
    ConnectFailed,
    /// The search for the meter is over; it may have given an address.
    Searched(Option<String>),
    Connected,
    /// The query of all data points is over; it may have given some.
    Queried(Option<Json>),
    FirstHeartbeatSent { now: u128 },
    FirstHeartbeatFailed,
    Received { incoming: Incoming, now: u128 },
    HeartbeatSent { now: u128 },
    HeartbeatFailed,
}

/// A [`ServerEvent`] with its data taken by their view.
pub ghost enum ServerNews {
    Start,
    ConnectFailed,
    Searched(Option<Seq<char>>),
    Connected,
    Queried(Option<JsonModel>),
    FirstHeartbeatSent { now: u128 },
    FirstHeartbeatFailed,
    /// Data points, if any came.
    Received { dps: Option<JsonModel>, now: u128 },
    Lost,
    HeartbeatSent { now: u128 },
    HeartbeatFailed,
}

impl View for ServerEvent {
    type V = ServerNews;

    open spec fn view(&self) -> ServerNews {
        match self {
            ServerEvent::Start => ServerNews::Start,
            ServerEvent::ConnectFailed => ServerNews::ConnectFailed,
            ServerEvent::Searched(Some(ip)) => ServerNews::Searched(Some(ip@)),
            ServerEvent::Searched(None) => ServerNews::Searched(None),
            ServerEvent::Connected => ServerNews::Connected,
            ServerEvent::Queried(Some(dps)) => ServerNews::Queried(Some(dps@)),
            ServerEvent::Queried(None) => ServerNews::Queried(None),
            ServerEvent::FirstHeartbeatSent { now } => ServerNews::FirstHeartbeatSent { now: *now },
            ServerEvent::FirstHeartbeatFailed => ServerNews::FirstHeartbeatFailed,
            ServerEvent::Received { incoming, now } => match incoming {
                Incoming::Dps(dps) => ServerNews::Received { dps: Some(dps@), now: *now },
                Incoming::Nothing => ServerNews::Received { dps: None, now: *now },
                Incoming::Lost => ServerNews::Lost,
            },
            ServerEvent::HeartbeatSent { now } => ServerNews::HeartbeatSent { now: *now },
            ServerEvent::HeartbeatFailed => ServerNews::HeartbeatFailed,
        }
    }
}

/// What is to be done by the server.
#[derive(Debug)]
pub enum ServerAction {
    Publish(Publication),
    /// Look for the meter.
    Search,
    Sleep { secs: u64 },
    /// Connect to the meter.
    Connect,
    /// Query all data points.
    Query,
    /// Publish the state under the topic, if there is one, and log it.
    Report { state: Vec<(String, Reading)>, topic: Option<String> },
    /// Wait no longer than this for the meter.
    ReadTimeout { secs: u64 },
    SendFirstHeartbeat,
    /// Set the switch as often as the broker has asked for it.
    HandleSwitch,
    Receive,
    SendHeartbeat,
}

/// A [`ServerAction`] with its data taken by their view.
pub ghost enum ServerDuty {
    Publish(Published),
    Search,
    Sleep { secs: u64 },
    Connect,
    Query,
    Report { state: Seq<(Seq<char>, Shown)>, topic: Option<Seq<char>> },
    ReadTimeout { secs: u64 },
    SendFirstHeartbeat,
    HandleSwitch,
    Receive,
    SendHeartbeat,
}

impl View for ServerAction {
    type V = ServerDuty;

    open spec fn view(&self) -> ServerDuty {
        match self {
            ServerAction::Publish(p) => ServerDuty::Publish(p@),
            ServerAction::Search => ServerDuty::Search,
            ServerAction::Sleep { secs } => ServerDuty::Sleep { secs: *secs },
            ServerAction::Connect => ServerDuty::Connect,
            ServerAction::Query => ServerDuty::Query,
            ServerAction::Report { state, topic } => ServerDuty::Report {
                state: state_view(state@),
                topic: match topic {
                    Some(t) => Some(t@),
                    None => None,
                },
            },
            ServerAction::ReadTimeout { secs } => ServerDuty::ReadTimeout { secs: *secs },
            ServerAction::SendFirstHeartbeat => ServerDuty::SendFirstHeartbeat,
            ServerAction::HandleSwitch => ServerDuty::HandleSwitch,
            ServerAction::Receive => ServerDuty::Receive,
            ServerAction::SendHeartbeat => ServerDuty::SendHeartbeat,
        }
    }
}

/// The views of what is to be done.
pub open spec fn duties(v: Seq<ServerAction>) -> Seq<ServerDuty> {
    Seq::new(v.len(), |i: int| v[i]@)
}

/// The smaller of two numbers.
pub open spec fn least(a: u64, b: u64) -> u64 {
    if a <= b {
        a
    } else {
        b
    }
}

/// Whether some seconds lie between two moments. A clock that was set back shows no time to have
/// passed.
pub open spec fn passed(since: u128, now: u128, secs: u64) -> bool {
    secs == 0 || now >= since + secs * 1_000_000_000
}

fn has_passed(since: u128, now: u128, secs: u64) -> (r: bool)
    ensures
        r == passed(since, now, secs),
{
    secs == 0 || (now >= since && now - since >= secs as u128 * 1_000_000_000)
}

impl Service {
    /// The message on whether the meter can be reached, where there is a broker.
    pub open spec fn says(self, word: Seq<char>) -> Seq<ServerDuty> {
        match self.node_id {
            Some(node_id) => seq![ServerDuty::Publish(availability(node_id, word))],
            None => Seq::empty(),
        }
    }

    /// The report of what the meter has sent.
    pub open spec fn report(self) -> ServerDuty {
        ServerDuty::Report {
            state: state_of(JsonModel::Object(self.dps), self.dev_type),
            topic: match self.node_id {
                Some(node_id) => Some(state_topic_of(node_id)),
                None => None,
            },
        }
    }

    /// The next round: the switch, then the meter.
    pub open spec fn round(self) -> Seq<ServerDuty> {
        seq![ServerDuty::HandleSwitch, ServerDuty::Receive]
    }

    /// What is to be done when the heartbeat is settled: a report where it is time for one, then
    /// the next round.
    pub open spec fn settled(self, now: u128) -> (Service, Seq<ServerDuty>) {
        if passed(self.last_publish, now, self.poll_secs) {
            let next = Service { last_publish: now, ..self };
            if self.dps.len() > 0 {
                (next, seq![self.report()] + self.round())
            } else {
                (next, self.round())
            }
        } else {
            (self, self.round())
        }
    }

    /// What is to be done after an event, and the server from then on.
    pub open spec fn after(self, news: ServerNews) -> (Service, Seq<ServerDuty>) {
        let reconnect = seq![ServerDuty::Sleep { secs: 5 }, ServerDuty::Connect];
        let retry = seq![ServerDuty::Sleep { secs: self.poll_secs }, ServerDuty::Connect];
        let first = seq![
            ServerDuty::ReadTimeout { secs: least(self.poll_secs, 5) },
            ServerDuty::SendFirstHeartbeat,
        ];
        match news {
            ServerNews::Start => (self, seq![ServerDuty::Connect]),
            ServerNews::ConnectFailed => (
                self,
                self.says("offline"@) + (if self.auto_ip {
                    seq![ServerDuty::Search]
                } else {
                    retry
                }),
            ),
            ServerNews::Searched(Some(ip)) => (Service { ip, ..self }, retry),
            ServerNews::Searched(None) => (self, retry),
            ServerNews::Connected => (
                Service { dps: Seq::empty(), ..self },
                self.says("online"@).push(ServerDuty::Query),
            ),
            ServerNews::Queried(Some(dps)) => {
                let next = Service { dps: with_dps(self.dps, Some(dps)), ..self };
                (next, seq![next.report()] + first)
            },
            ServerNews::Queried(None) => (self, first),
            ServerNews::FirstHeartbeatSent { now } => (
                Service { last_heartbeat: now, last_publish: now, ..self },
                self.round(),
            ),
            ServerNews::FirstHeartbeatFailed => (self, seq![ServerDuty::Connect]),
            ServerNews::Received { dps, now } => {
                let next = Service { dps: with_dps(self.dps, dps), ..self };
                if passed(self.last_heartbeat, now, least(self.poll_secs, 7)) {
                    (next, seq![ServerDuty::SendHeartbeat])
                } else {
                    next.settled(now)
                }
            },
            ServerNews::Lost => (self, self.says("offline"@) + reconnect),
            ServerNews::HeartbeatSent { now } => (Service {
                last_heartbeat: now,
                ..self
            }).settled(now),
            ServerNews::HeartbeatFailed => (self, reconnect),
        }
    }
}

/// Whether what is to be done brings the next event.
pub open spec fn brings_event(duty: ServerDuty) -> bool {
    match duty {
        ServerDuty::Search => true,
        ServerDuty::Connect => true,
        ServerDuty::Query => true,
        ServerDuty::SendFirstHeartbeat => true,
        ServerDuty::Receive => true,
        ServerDuty::SendHeartbeat => true,
        _ => false,
    }
}

/// The server never stops: whatever happens, the last thing to be done brings the next event,
/// and nothing before it does.
pub proof fn server_goes_on(service: Service, news: ServerNews)
    ensures
        ({
            let todo = service.after(news).1;
            &&& todo.len() > 0
            &&& brings_event(todo.last())
            &&& forall|i: int| 0 <= i < todo.len() - 1 ==> !brings_event(#[trigger] todo[i])
        }),
{
}

/// When seven seconds have passed since the last heartbeat, or the polling interval where that
/// is shorter, the next one is sent before anything else is done.
pub proof fn heartbeats_are_frequent(service: Service, dps: Option<JsonModel>, now: u128)
    requires
        now >= service.last_heartbeat + least(service.poll_secs, 7) * 1_000_000_000,
    ensures
        service.after(ServerNews::Received { dps, now }).1 == seq![ServerDuty::SendHeartbeat],
{
}

/// A broker is told at once when the meter can no longer be reached, and again when it can.
pub proof fn availability_is_told(service: Service, node_id: Seq<char>, news: ServerNews)
    requires
        service.node_id == Some(node_id),
        news is ConnectFailed || news is Lost || news is Connected,
    ensures
        service.after(news).1[0] == ServerDuty::Publish(
            availability(
                node_id,
                if news is Connected {
                    "online"@
                } else {
                    "offline"@
                },
            ),
        ),
{
}

/// Where the address of the meter is looked for, that is done after every failure to connect,
/// and the next try goes to the address that was found.
pub proof fn addresses_are_looked_for_again(service: Service, ip: Seq<char>)
    requires
        service.auto_ip,
    ensures
        service.after(ServerNews::ConnectFailed).1.last() == ServerDuty::Search,
        service.after(ServerNews::Searched(Some(ip))).0.ip == ip,
        service.after(ServerNews::Searched(Some(ip))).1.last() == ServerDuty::Connect,
{
}

/// In the rounds there is a report in every polling interval in which the meter has sent
/// something, and no second one.
pub proof fn one_report_an_interval(service: Service, now: u128, later: u128)
    requires
        service.dps.len() > 0,
        passed(service.last_publish, now, service.poll_secs),
        now <= later < now + service.poll_secs * 1_000_000_000,
    ensures
        ({
            let (next, todo) = service.settled(now);
            &&& todo == seq![service.report()] + service.round()
            &&& next.settled(later) == (next, next.round())
        }),
{
}

/// Whether what is to be done is a report of the state of some data points of a kind of meter,
/// under the topic of the node where there is a broker.
pub open spec fn reports(
    duty: ServerDuty,
    dps: Fields,
    dev_type: DeviceType,
    node_id: Option<Seq<char>>,
) -> bool {
    duty matches ServerDuty::Report { state, topic } && state == state_of(
        JsonModel::Object(dps),
        dev_type,
    ) && (match node_id {
        Some(node) => topic == Some("home/"@ + node + "/state"@),
        None => topic is None,
    })
}

/// Every report holds the state of the data points that the server keeps after the event, for its
/// own kind of meter, and goes to the topic of its node.
pub proof fn reports_hold_the_kept_state(service: Service, news: ServerNews, i: int)
    requires
        0 <= i < service.after(news).1.len(),
        service.after(news).1[i] is Report,
    ensures
        reports(
            service.after(news).1[i],
            service.after(news).0.dps,
            service.dev_type,
            service.node_id,
        ),
{
}

/// What a report of a clamp meter holds: the measurements of its block, where it has sent one,
/// and no switch; what one of a plug meter holds: its voltage, where it has sent it.
pub proof fn reports_hold_measurements(
    service: Service,
    news: ServerNews,
    i: int,
    p: PhaseA,
    v: Shown,
)
    requires
        0 <= i < service.after(news).1.len(),
        service.after(news).1[i] is Report,
    ensures
        ({
            let dps = JsonModel::Object(service.after(news).0.dps);
            let state = service.after(news).1[i]->state;
            &&& service.dev_type == DeviceType::Ct ==> !state_has(state, "switch"@, v)
            &&& service.dev_type == DeviceType::Ct && has_block(dps, p) && state_has(
                state,
                "current"@,
                v,
            ) ==> (v matches Shown::Text(t) && is_decimal(t, p.milliamps as nat, 3))
            &&& service.dev_type == DeviceType::Ct && has_block(dps, p) ==> exists|w: Shown|
                #[trigger] state_has(state, "current"@, w)
            &&& service.dev_type == DeviceType::At4pw ==> (state_has(state, "voltage"@, v)
                <==> is_scaled(v, dps, "20"@, 100, 1))
        }),
{
    let dps = JsonModel::Object(service.after(news).0.dps);
    reports_hold_the_kept_state(service, news, i);
    clamp_meters_show_their_block(dps, v, p);
    plug_meters_show_their_data_points(dps, v);
}

/// Whether some of what is to be done is a report.
pub open spec fn has_report(todo: Seq<ServerDuty>) -> bool {
    exists|i: int| 0 <= i < todo.len() && (#[trigger] todo[i]) is Report
}

/// There is a report when the query has given something, and in the rounds when the polling
/// interval has passed since the last time and something was received, but not while a heartbeat
/// is due; there is none otherwise.
pub proof fn reports_come_when_due(service: Service, news: ServerNews)
    ensures
        ({
            let (next, todo) = service.after(news);
            let due = |now: u128| now - service.last_publish >= service.poll_secs * 1_000_000_000
                || service.poll_secs == 0;
            has_report(todo) <==> (match news {
                ServerNews::Queried(Some(_)) => true,
                ServerNews::Received { now, .. } => !(todo == seq![ServerDuty::SendHeartbeat]) && due(
                    now,
                ) && next.dps.len() > 0,
                ServerNews::HeartbeatSent { now } => due(now) && service.dps.len() > 0,
                _ => false,
            })
        }),
{
    let (next, todo) = service.after(news);
    match news {
        ServerNews::Queried(Some(_)) => {
            assert(todo[0] is Report);
        },
        ServerNews::Received { now, .. } => {
            if todo == seq![ServerDuty::SendHeartbeat] {
                assert(todo[0] is SendHeartbeat);
            } else if has_report(todo) {
                assert(todo[0] is Report);
            } else if passed(service.last_publish, now, service.poll_secs) && next.dps.len() > 0 {
                assert(todo[0] is Report);
            }
            assert(seq![ServerDuty::HandleSwitch, ServerDuty::Receive][0] is HandleSwitch);
        },
        ServerNews::HeartbeatSent { now } => {
            if passed(service.last_publish, now, service.poll_secs) && service.dps.len() > 0 {
                assert(todo[0] is Report);
            }
        },
        _ => {},
    }
}

/// The settings of a server do not change, but for the address of the meter, which a search gives.
pub proof fn settings_stay(service: Service, news: ServerNews)
    ensures
        ({
            let next = service.after(news).0;
            &&& next.node_id == service.node_id
            &&& next.dev_type == service.dev_type
            &&& next.poll_secs == service.poll_secs
            &&& next.auto_ip == service.auto_ip
            &&& next.ip == (match news {
                ServerNews::Searched(Some(ip)) => ip,
                _ => service.ip,
            })
        }),
{
}

/// The server keeps what the meter has sent on this connection: each data point has the value that
/// came last, and a new connection starts with none.
pub proof fn last_values_are_kept(service: Service, news: ServerNews, key: Seq<char>)
    ensures
        ({
            let next = service.after(news).0;
            let came: Option<JsonModel> = match news {
                ServerNews::Queried(dps) => dps,
                ServerNews::Received { dps, .. } => dps,
                _ => None,
            };
            field(next.dps, key) == (if news is Connected {
                None
            } else {
                match came {
                    Some(JsonModel::Object(more)) => match last_value(more, key) {
                        Some(v) => Some(v),
                        None => field(service.dps, key),
                    },
                    _ => field(service.dps, key),
                }
            })
        }),
{
    match news {
        ServerNews::Queried(Some(dps)) => {
            only_objects_bring_data_points(service.dps, dps, key);
        },
        ServerNews::Received { dps: Some(dps), .. } => {
            only_objects_bring_data_points(service.dps, dps, key);
        },
        ServerNews::Connected => {
            key_at_is_first(service.after(news).0.dps, key);
        },
        _ => {},
    }
}

/// The moment of the last heartbeat is the one at which it was sent. The moment from which the
/// polling interval counts is that of the first heartbeat, and then that of each round in which
/// the interval was over.
pub proof fn moments_are_noted(service: Service, news: ServerNews)
    ensures
        ({
            let next = service.after(news).0;
            &&& next.last_heartbeat == (match news {
                ServerNews::FirstHeartbeatSent { now } => now,
                ServerNews::HeartbeatSent { now } => now,
                _ => service.last_heartbeat,
            })
            &&& news matches ServerNews::FirstHeartbeatSent { now } ==> next.last_publish == now
            &&& next.last_publish == service.last_publish || (news matches
                ServerNews::FirstHeartbeatSent { now } && next.last_publish == now) || (news matches
                ServerNews::Received { now, .. } && next.last_publish == now) || (news matches
                ServerNews::HeartbeatSent { now } && next.last_publish == now)
            &&& news matches ServerNews::HeartbeatSent { now } ==> next.last_publish == (if now
                - service.last_publish >= service.poll_secs * 1_000_000_000 || service.poll_secs
                == 0 {
                now
            } else {
                service.last_publish
            })
            &&& news matches ServerNews::Received { now, .. } ==> next.last_publish == (if now
                - service.last_publish >= service.poll_secs * 1_000_000_000 && !(service.after(
                news,
            ).1 == seq![ServerDuty::SendHeartbeat]) {
                now
            } else {
                service.last_publish
            })
            &&& has_report(service.after(news).1) && !(news is Queried) ==> (match news {
                ServerNews::Received { now, .. } => next.last_publish == now,
                ServerNews::HeartbeatSent { now } => next.last_publish == now,
                _ => false,
            })
        }),
{
    reports_come_when_due(service, news);
    let todo = service.after(news).1;
    if todo.len() == 1 {
        assert(todo =~= seq![todo[0]]);
    }
    assert(seq![ServerDuty::SendHeartbeat].len() == 1);
}

/// A heartbeat is due when seven seconds have passed since the last one, or the polling interval
/// where that is shorter, and not before.
pub proof fn heartbeats_come_when_due(service: Service, dps: Option<JsonModel>, now: u128)
    ensures
        service.after(ServerNews::Received { dps, now }).1 == seq![ServerDuty::SendHeartbeat] <==> (
        service.poll_secs == 0 || (now - service.last_heartbeat >= service.poll_secs * 1_000_000_000)
            || (now - service.last_heartbeat >= 7_000_000_000)),
{
    let todo = service.after(ServerNews::Received { dps, now }).1;
    if todo.len() == 1 {
        assert(todo[0] is SendHeartbeat);
    }
    assert(seq![ServerDuty::SendHeartbeat].len() == 1);
}

/// After a lost connection the server sleeps for five seconds and connects; after a failure to
/// connect, and after a search, it sleeps for the polling interval and connects. It waits for the
/// meter no longer than five seconds, or than the polling interval where that is shorter.
pub proof fn connections_are_made_again(service: Service, found: Option<Seq<char>>)
    ensures
        service.after(ServerNews::Start).1 == seq![ServerDuty::Connect],
        service.after(ServerNews::FirstHeartbeatFailed).1 == seq![ServerDuty::Connect],
        service.after(ServerNews::HeartbeatFailed).1 == seq![
            ServerDuty::Sleep { secs: 5 },
            ServerDuty::Connect,
        ],
        service.after(ServerNews::Lost).1.skip(
            if service.node_id is Some {
                1
            } else {
                0
            },
        ) == seq![ServerDuty::Sleep { secs: 5 }, ServerDuty::Connect],
        service.after(ServerNews::Searched(found)).1 == seq![
            ServerDuty::Sleep { secs: service.poll_secs },
            ServerDuty::Connect,
        ],
        service.after(ServerNews::ConnectFailed).1.skip(
            if service.node_id is Some {
                1
            } else {
                0
            },
        ) == (if service.auto_ip {
            seq![ServerDuty::Search]
        } else {
            seq![ServerDuty::Sleep { secs: service.poll_secs }, ServerDuty::Connect]
        }),
        service.after(ServerNews::Connected).1.skip(
            if service.node_id is Some {
                1
            } else {
                0
            },
        ) == seq![ServerDuty::Query],
        service.after(ServerNews::Queried(None)).1 == seq![
            ServerDuty::ReadTimeout {
                secs: if service.poll_secs < 5 {
                    service.poll_secs
                } else {
                    5
                },
            },
            ServerDuty::SendFirstHeartbeat,
        ],
{
    let lost = service.after(ServerNews::Lost).1;
    let failed = service.after(ServerNews::ConnectFailed).1;
    let n = if service.node_id is Some {
        1int
    } else {
        0
    };
    assert(lost.skip(n) =~= seq![ServerDuty::Sleep { secs: 5 }, ServerDuty::Connect]);
    assert(service.after(ServerNews::Connected).1.skip(n) =~= seq![ServerDuty::Query]);
    if service.auto_ip {
        assert(failed.skip(n) =~= seq![ServerDuty::Search]);
    } else {
        assert(failed.skip(n) =~= seq![
            ServerDuty::Sleep { secs: service.poll_secs },
            ServerDuty::Connect,
        ]);
    }
}

/// Every round that does not begin with a heartbeat ends with the switch and the meter; the first
/// query is followed by the first heartbeat.
pub proof fn rounds_serve_switch_and_meter(service: Service, news: ServerNews, found: JsonModel)
    requires
        news is Received || news is HeartbeatSent || news is FirstHeartbeatSent,
    ensures
        ({
            let todo = service.after(news).1;
            let n = todo.len() as int;
            todo == seq![ServerDuty::SendHeartbeat] || (n >= 2 && todo[n - 2]
                == ServerDuty::HandleSwitch && todo[n - 1] == ServerDuty::Receive && n <= 3 && (n
                == 3 ==> todo[0] is Report))
        }),
        service.after(ServerNews::Queried(Some(found))).1.skip(1) == service.after(
            ServerNews::Queried(None),
        ).1,
{
    let with = service.after(ServerNews::Queried(Some(found))).1;
    let without = service.after(ServerNews::Queried(None)).1;
    assert(with.skip(1) =~= without);
}

/// What happens is heeded as it happened. A lost connection is made again, and is not taken for
/// silence; silence changes nothing of what was sent; data points, the address that was found and
/// the moments of heartbeats are those of the event.
pub proof fn what_happens_is_heeded(service: Service, event: ServerEvent, key: Seq<char>)
    ensures
        ({
            let (next, todo) = service.after(event@);
            match event {
                ServerEvent::Received { incoming: Incoming::Lost, .. } => next == service
                    && todo.last() == ServerDuty::Connect,
                ServerEvent::Received { incoming: Incoming::Nothing, .. } => next.dps
                    == service.dps && todo.last() != ServerDuty::Connect,
                ServerEvent::Received { incoming: Incoming::Dps(dps), now } => todo.last()
                    != ServerDuty::Connect && (dps@ matches JsonModel::Object(more) ==> (
                last_value(more, key) matches Some(v) ==> field(next.dps, key) == Some(v))) && (
                next.last_publish != service.last_publish ==> next.last_publish == now),
                ServerEvent::Queried(Some(dps)) => has_report(todo) && (dps@ matches
                    JsonModel::Object(more) ==> (last_value(more, key) matches Some(v) ==> field(
                    next.dps,
                    key,
                ) == Some(v))),
                ServerEvent::Queried(None) => next == service && !has_report(todo),
                ServerEvent::Searched(Some(ip)) => next.ip == ip@,
                ServerEvent::Searched(None) => next == service,
                ServerEvent::FirstHeartbeatSent { now } => next.last_heartbeat == now
                    && next.last_publish == now,
                ServerEvent::HeartbeatSent { now } => next.last_heartbeat == now,
                ServerEvent::FirstHeartbeatFailed => next == service && todo == seq![
                    ServerDuty::Connect,
                ],
                ServerEvent::HeartbeatFailed => next == service && todo.last()
                    == ServerDuty::Connect && todo.len() == 2,
                ServerEvent::Start => next == service && todo == seq![ServerDuty::Connect],
                ServerEvent::ConnectFailed => next == service && (todo.last()
                    == ServerDuty::Search <==> service.auto_ip),
                ServerEvent::Connected => next.dps.len() == 0 && todo.last() == ServerDuty::Query,
            }
        }),
{
    last_values_are_kept(service, event@, key);
    reports_come_when_due(service, event@);
    moments_are_noted(service, event@);
}

/// A message for the broker is seen with its own topic and payload, and as kept exactly where the
/// broker is told to keep it; a report with its own fields and topic.
pub proof fn messages_are_seen_as_they_are(p: Publication, state: Vec<(String, Reading)>, topic: String)
    ensures
        p@.topic == p.topic@,
        p@.payload == p.payload@,
        p@.retain <==> p.retain,
        ServerAction::Publish(p)@ == ServerDuty::Publish(p@),
        (ServerAction::Report { state, topic: Some(topic) })@ matches ServerDuty::Report {
            state: s,
            topic: t,
        } && s == state_view(state@) && t == Some(topic@),
        (ServerAction::Report { state, topic: None })@ matches ServerDuty::Report { topic: t, .. }
            && t is None,
{
}

/// The messages on whether the meter can be reached go to the topic of the node, and the broker
/// keeps them; without a broker there are none.
pub proof fn availability_is_kept_by_the_broker(service: Service, node: Seq<char>, word: Seq<char>)
    ensures
        availability(node, word).topic == "home/"@ + node + "/availability"@,
        availability(node, word).payload == word,
        availability(node, word).retain,
        service.node_id is None ==> !(service.after(ServerNews::Lost).1[0] is Publish) && !(
        service.after(ServerNews::ConnectFailed).1[0] is Publish) && !(service.after(
            ServerNews::Connected,
        ).1[0] is Publish),
{
}

/// The switch is set by the words `ON` and `OFF` under the topic of the node, and by nothing else.
pub proof fn only_on_and_off_set_the_switch(
    node_id: Seq<char>,
    topic: Seq<char>,
    payload: Seq<u8>,
    on: bool,
)
    ensures
        switch_order(node_id, topic, payload) == Some(on) <==> topic == "home/"@ + node_id
            + "/switch/set"@ && payload == (if on {
            seq!['O' as u8, 'N' as u8]
        } else {
            seq!['O' as u8, 'F' as u8, 'F' as u8]
        }),
{
    assert(seq!['O' as u8, 'N' as u8] =~= seq![0x4fu8, 0x4eu8]);
    assert(seq!['O' as u8, 'F' as u8, 'F' as u8] =~= seq![0x4fu8, 0x46u8, 0x46u8]);
    assert(seq![0x4fu8, 0x4eu8].len() == 2 && seq![0x4fu8, 0x46u8, 0x46u8].len() == 3);
}

/// Brackets around an address come off, and an address without them stays as it is.
pub proof fn brackets_come_off(host: Seq<char>)
    requires
        host.len() > 0,
        host[0] != '[',
        host.last() != ']',
    ensures
        unclosed(unopened(host)) == host,
        unclosed(unopened(seq!['['] + host + seq![']'])) == host,
{
    let whole = seq!['['] + host + seq![']'];
    let rest = whole.skip(1);
    assert(rest =~= host.push(']'));
    assert(whole[0] == '[' && rest[0] == host[0] && rest.last() == ']');
    assert(unopened(rest) == rest);
    assert(unopened(whole) == rest);
    assert(rest.drop_last() =~= host);
    assert(unclosed(host) == host);
}

/// However many brackets stand around an address, they come off one by one.
pub proof fn every_bracket_comes_off(host: Seq<char>)
    ensures
        unopened(seq!['['] + host) == unopened(host),
        unclosed(host.push(']')) == unclosed(host),
{
    assert((seq!['['] + host).skip(1) =~= host);
    assert(host.push(']').drop_last() =~= host);
}

/// How the broker is used: it says `offline` for the meter when the connection breaks, hears of
/// every announcement and then `online`, and is listened to for the switch of a plug meter.
pub proof fn brokers_hear_of_the_meter(mqtt: MqttConfig, dev_type: DeviceType, i: int)
    requires
        0 <= i < announcements(mqtt.node_id@, dev_type).len(),
    ensures
        ({
            let used = broker_use(mqtt, dev_type);
            let node = mqtt.node_id@;
            let all = announcements(node, dev_type);
            &&& used.port == mqtt.port
            &&& used.host == unclosed(unopened(mqtt.host@))
            &&& used.client_id == "at4pw-"@ + node
            &&& used.keep_alive_secs == 30
            &&& used.will == (Published {
                topic: "home/"@ + node + "/availability"@,
                payload: "offline"@,
                retain: true,
            })
            &&& used.greeting.len() == all.len() + 1
            &&& used.greeting[i].topic == all[i].0
            &&& used.greeting[i].payload == json_text(settled(all[i].1))
            &&& used.greeting[i].retain
            &&& used.greeting.last() == (Published {
                topic: "home/"@ + node + "/availability"@,
                payload: "online"@,
                retain: true,
            })
            &&& used.subscription == (if dev_type == DeviceType::At4pw {
                Some("home/"@ + node + "/switch/set"@)
            } else {
                None
            })
        }),
{
}

/// A state is published as it is written, under its topic, and the broker does not keep it.
pub proof fn states_are_not_kept(topic: Seq<char>, state: JsonModel)
    ensures
        state_message(topic, state).topic == topic,
        state_message(topic, state).payload == json_text(settled(state)),
        !state_message(topic, state).retain,
{
}

/// No data point occurs twice in what the server keeps.
pub proof fn kept_keys_are_distinct(service: Service, news: ServerNews)
    requires
        distinct_keys(service.dps),
    ensures
        distinct_keys(service.after(news).0.dps),
{
    match news {
        ServerNews::Queried(Some(JsonModel::Object(more))) => {
            merging_keeps_keys_distinct(service.dps, more);
        },
        ServerNews::Received { dps: Some(JsonModel::Object(more)), .. } => {
            merging_keeps_keys_distinct(service.dps, more);
        },
        _ => {},
    }
}

impl Server {
    /// A server that has received nothing yet.
    pub fn new(
        dev: DeviceConfig,
        mqtt: Option<MqttConfig>,
        dev_type: DeviceType,
        poll_secs: u64,
        auto_ip: bool,
    ) -> (r: Server)
        ensures
            r@ == (Service {
                ip: dev.ip@,
                node_id: match mqtt {
                    Some(m) => Some(m.node_id@),
                    None => None,
                },
                dev_type,
                poll_secs,
                auto_ip,
                dps: Seq::empty(),
                last_heartbeat: 0,
                last_publish: 0,
            }),
            r.dev == dev,
            r.mqtt == mqtt,
    {
        let dps: Vec<(String, Json)> = Vec::new();
        assert(fields_of(dps@) =~= Seq::empty());
        Server {
            dev,
            mqtt,
            dev_type,
            poll_secs,
            auto_ip,
            dps,
            last_heartbeat: 0,
            last_publish: 0,
        }
    }

    /// The announcements of the meter, where there is a broker.
    pub fn ha_discovery_configs(&self) -> (r: Vec<(String, Json)>)
        ensures
            configs_view(r@) == (match self@.node_id {
                Some(node_id) => announcements(node_id, self.dev_type),
                None => Seq::empty(),
            }),
    {
        match &self.mqtt {
            Some(m) => discovery_configs(m.node_id.as_str(), self.dev_type),
            None => {
                let none: Vec<(String, Json)> = Vec::new();
                assert(configs_view(none@) =~= Seq::empty());
                none
            },
        }
    }

    /// Settles how the broker is used, where there is one.
    pub fn mqtt_setup(&self) -> (r: Option<MqttSetup>)
        ensures
            match self.mqtt {
                Some(mqtt) => r matches Some(setup) && setup@ == broker_use(mqtt, self.dev_type),
                None => r is None,
            },
    {
        let mqtt = match &self.mqtt {
            Some(m) => m,
            None => {
                return None;
            },
        };
        let node_id = mqtt.node_id.as_str();
        let dev_type = self.dev_type;
        let mut client_id = "at4pw-".to_string();
        client_id.append(node_id);
        let configs = self.ha_discovery_configs();
        let ghost all = announcements(node_id@, dev_type);
        let mut greeting: Vec<Publication> = Vec::new();
        let mut i: usize = 0;
        while i < configs.len()
            invariant
                i <= configs@.len(),
                all == configs_view(configs@),
                all == announcements(node_id@, dev_type),
                greeting@.len() == i,
                forall|k: int|
                    0 <= k < i ==> (#[trigger] greeting@[k])@ == announced(node_id@, dev_type)[k],
            decreases configs@.len() - i,
        {
            assert(all[i as int] == (configs@[i as int].0@, configs@[i as int].1@));
            greeting.push(
                Publication {
                    topic: configs[i].0.clone(),
                    payload: configs[i].1.to_text(),
                    retain: true,
                },
            );
            i = i + 1;
        }
        assert(publications(greeting@) =~= announced(node_id@, dev_type));
        greeting.push(availability_message(node_id, "online"));
        assert(publications(greeting@) =~= announced(node_id@, dev_type).push(
            availability(node_id@, "online"@),
        ));
        let subscription = if dev_type == DeviceType::At4pw {
            Some(cmd_topic(node_id))
        } else {
            None
        };
        Some(
            MqttSetup {
                client_id,
                host: without_brackets(mqtt.host.as_str()),
                port: mqtt.port,
                keep_alive_secs: 30,
                will: availability_message(node_id, "offline"),
                greeting,
                subscription,
            },
        )
    }

    fn say(&self, out: &mut Vec<ServerAction>, word: &str)
        ensures
            duties(final(out)@) == duties(old(out)@) + self@.says(word@),
    {
        if let Some(m) = &self.mqtt {
            out.push(ServerAction::Publish(availability_message(m.node_id.as_str(), word)));
        }
        assert(duties(out@) =~= duties(old(out)@) + self@.says(word@));
    }

    fn push_report(&self, out: &mut Vec<ServerAction>)
        ensures
            duties(final(out)@) == duties(old(out)@).push(self@.report()),
    {
        let all = Json::Object(duplicate_fields(&self.dps));
        assert(all@->Object_0 =~= self@.dps);
        let state = dps_to_state(&all, self.dev_type);
        let topic = match &self.mqtt {
            Some(m) => Some(state_topic(m.node_id.as_str())),
            None => None,
        };
        out.push(ServerAction::Report { state, topic });
        assert(duties(out@) =~= duties(old(out)@).push(self@.report()));
    }

    fn push_round(&self, out: &mut Vec<ServerAction>)
        ensures
            duties(final(out)@) == duties(old(out)@) + self@.round(),
    {
        out.push(ServerAction::HandleSwitch);
        out.push(ServerAction::Receive);
        assert(duties(out@) =~= duties(old(out)@) + self@.round());
    }

    fn settle(&mut self, now: u128) -> (r: Vec<ServerAction>)
        ensures
            (final(self)@, duties(r@)) == old(self)@.settled(now),
            final(self).mqtt == old(self).mqtt,
            final(self).dev == old(self).dev,
    {
        let mut out: Vec<ServerAction> = Vec::new();
        assert(duties(out@) =~= Seq::empty());
        if has_passed(self.last_publish, now, self.poll_secs) {
            if self.dps.len() > 0 {
                self.push_report(&mut out);
            }
            self.last_publish = now;
        }
        self.push_round(&mut out);
        assert(duties(out@) =~= old(self)@.settled(now).1);
        out
    }

    /// Decides what is to be done after an event.
    pub fn run(&mut self, event: ServerEvent) -> (r: Vec<ServerAction>)
        ensures
            (final(self)@, duties(r@)) == old(self)@.after(event@),
            final(self).mqtt == old(self).mqtt,
            final(self).dev == (DeviceConfig { ip: final(self).dev.ip, ..old(self).dev }),
    {
        let mut out: Vec<ServerAction> = Vec::new();
        assert(duties(out@) =~= Seq::empty());
        match event {
            ServerEvent::Start => {
                out.push(ServerAction::Connect);
            },
            ServerEvent::ConnectFailed => {
                self.say(&mut out, "offline");
                if self.auto_ip {
                    out.push(ServerAction::Search);
                } else {
                    out.push(ServerAction::Sleep { secs: self.poll_secs });
                    out.push(ServerAction::Connect);
                }
            },
            ServerEvent::Searched(found) => {
                if let Some(ip) = found {
                    self.dev.ip = ip;
                }
                out.push(ServerAction::Sleep { secs: self.poll_secs });
                out.push(ServerAction::Connect);
            },
            ServerEvent::Connected => {
                self.dps = Vec::new();
                assert(fields_of(self.dps@) =~= Seq::empty());
                self.say(&mut out, "online");
                out.push(ServerAction::Query);
            },
            ServerEvent::Queried(found) => {
                if let Some(dps) = found {
                    add_dps(&mut self.dps, &dps);
                    self.push_report(&mut out);
                }
                let secs: u64 = if self.poll_secs <= 5 {
                    self.poll_secs
                } else {
                    5
                };
                out.push(ServerAction::ReadTimeout { secs });
                out.push(ServerAction::SendFirstHeartbeat);
            },
            ServerEvent::FirstHeartbeatSent { now } => {
                self.last_heartbeat = now;
                self.last_publish = now;
                self.push_round(&mut out);
            },
            ServerEvent::FirstHeartbeatFailed => {
                out.push(ServerAction::Connect);
            },
            ServerEvent::Received { incoming, now } => {
                match incoming {
                    Incoming::Dps(dps) => {
                        add_dps(&mut self.dps, &dps);
                    },
                    Incoming::Nothing => {},
                    Incoming::Lost => {
                        self.say(&mut out, "offline");
                        out.push(ServerAction::Sleep { secs: 5 });
                        out.push(ServerAction::Connect);
                        assert(duties(out@) =~= old(self)@.after(event@).1);
                        return out;
                    },
                }
                let secs: u64 = if self.poll_secs <= 7 {
                    self.poll_secs
                } else {
                    7
                };
                if has_passed(self.last_heartbeat, now, secs) {
                    out.push(ServerAction::SendHeartbeat);
                } else {
                    return self.settle(now);
                }
            },
            ServerEvent::HeartbeatSent { now } => {
                self.last_heartbeat = now;
                return self.settle(now);
            },
            ServerEvent::HeartbeatFailed => {
                out.push(ServerAction::Sleep { secs: 5 });
                out.push(ServerAction::Connect);
            },
        }
        assert(duties(out@) =~= old(self)@.after(event@).1);
        out
    }
}

} // verus!
