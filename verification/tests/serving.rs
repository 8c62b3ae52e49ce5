use tuya_meter::config::{
    default_mqtt_port, default_node_id, default_poll_secs, default_version, device_addr,
    parse_command, parse_version, wants_search, Command, Config, DeviceConfig, DeviceType,
    LogConfig, MqttConfig,
};
use tuya_meter::frame::ProtoVer;
use tuya_meter::hass::{avail_topic, cmd_topic, discovery_configs, sensors, state_topic};
use tuya_meter::json::{parse_json, Json};
use tuya_meter::meter::dps_to_state;
use tuya_meter::server::{
    state_publication, switch_command, without_brackets, Incoming, Server, ServerAction, ServerEvent,
};

const SEC: u128 = 1_000_000_000;

fn mqtt() -> MqttConfig {
    MqttConfig { host: "[fe80::1]".to_string(), port: 1883, node_id: "m1".to_string() }
}

fn device(ip: &str) -> DeviceConfig {
    DeviceConfig {
        ip: ip.to_string(),
        id: "dev1".to_string(),
        local_key: "0123456789ABCDEF".to_string(),
        version: "3.5".to_string(),
        device_type: None,
        mac: None,
    }
}

fn server(broker: bool, poll_secs: u64, auto_ip: bool) -> Server {
    let mqtt = if broker { Some(mqtt()) } else { None };
    Server::new(device("10.0.0.2"), mqtt, DeviceType::At4pw, poll_secs, auto_ip)
}

fn dps(text: &str) -> Json {
    parse_json(text).unwrap()
}

fn steps(server: &mut Server, event: ServerEvent) -> Vec<String> {
    server
        .run(event)
        .iter()
        .map(|a| match a {
            ServerAction::Publish(p) => format!("publish {} {} {}", p.topic, p.payload, p.retain),
            ServerAction::Search => "search".to_string(),
            ServerAction::Sleep { secs } => format!("sleep {secs}"),
            ServerAction::Connect => "connect".to_string(),
            ServerAction::Query => "query".to_string(),
            ServerAction::Report { state, topic } => format!("report {} {topic:?}", state.len()),
            ServerAction::ReadTimeout { secs } => format!("timeout {secs}"),
            ServerAction::SendFirstHeartbeat => "first heartbeat".to_string(),
            ServerAction::HandleSwitch => "switch".to_string(),
            ServerAction::Receive => "receive".to_string(),
            ServerAction::SendHeartbeat => "heartbeat".to_string(),
        })
        .collect()
}

#[test]
fn settings_that_are_not_made() {
    assert_eq!(default_version(), "3.5");
    assert_eq!(default_mqtt_port(), 1883);
    assert_eq!(default_poll_secs(), Some(10));
    assert_eq!(default_node_id(), "at4pw");
}

#[test]
fn versions_by_name() {
    assert_eq!(parse_version("3.3"), (ProtoVer::V33, true));
    assert_eq!(parse_version("3.4"), (ProtoVer::V34, true));
    assert_eq!(parse_version("3.5"), (ProtoVer::V35, true));
    assert_eq!(parse_version("3.1"), (ProtoVer::V35, false));
}

#[test]
fn commands_by_name() {
    assert_eq!(parse_command("status"), Command::Status);
    assert_eq!(parse_command("json"), Command::Json);
    assert_eq!(parse_command("on"), Command::On);
    assert_eq!(parse_command("off"), Command::Off);
    assert_eq!(parse_command("server"), Command::Server);
    assert_eq!(parse_command("mqtt"), Command::Server);
    assert_eq!(parse_command("ON"), Command::Unknown);
}

#[test]
fn addresses_that_are_looked_for() {
    assert!(wants_search("auto"));
    assert!(wants_search("AuTO"));
    assert!(!wants_search("auto "));
    assert!(!wants_search("10.0.0.1"));
    assert_eq!(device_addr("10.0.0.1"), "10.0.0.1:6668");
}

#[test]
fn what_a_server_needs() {
    let mut cfg = Config {
        device: device("auto"),
        mqtt: None,
        log: None,
        poll_secs: None,
        bcast_addr: None,
    };
    assert!(!cfg.can_serve());
    assert_eq!(cfg.poll_interval(), 10);
    cfg.log = Some(LogConfig { file: "x".to_string(), max_lines: None, rotate_interval: None });
    cfg.poll_secs = Some(30);
    assert!(cfg.can_serve());
    assert_eq!(cfg.poll_interval(), 30);
}

#[test]
fn topics_of_a_node() {
    assert_eq!(state_topic("m1"), "home/m1/state");
    assert_eq!(avail_topic("m1"), "home/m1/availability");
    assert_eq!(cmd_topic("m1"), "home/m1/switch/set");
}

#[test]
fn a_plug_meter_is_announced() {
    let configs = discovery_configs("m1", DeviceType::At4pw);
    assert_eq!(configs.len(), 11);
    assert_eq!(configs[0].0, "homeassistant/sensor/m1/voltage/config");
    assert_eq!(
        configs[0].1.to_text(),
        "{\"name\":\"Voltage\",\"device_class\":\"voltage\",\"state_topic\":\"home/m1/state\",\"availability_topic\":\"home/m1/availability\",\"unique_id\":\"m1_voltage\",\"device\":{\"identifiers\":[\"m1\"],\"name\":\"AT4P-W Power Meter\",\"model\":\"AT4P-W\",\"manufacturer\":\"Tuya\"},\"value_template\":\"{{ value_json.voltage }}\",\"unit_of_measurement\":\"V\",\"state_class\":\"measurement\"}"
    );
    assert_eq!(
        configs[9].1.to_text(),
        "{\"name\":\"Leakage Current\",\"device_class\":\"current\",\"state_topic\":\"home/m1/state\",\"availability_topic\":\"home/m1/availability\",\"unique_id\":\"m1_leakage\",\"device\":{\"identifiers\":[\"m1\"],\"name\":\"AT4P-W Power Meter\",\"model\":\"AT4P-W\",\"manufacturer\":\"Tuya\"},\"value_template\":\"{{ value_json.leakage_ma }}\",\"unit_of_measurement\":\"mA\",\"state_class\":\"measurement\"}"
    );
    assert_eq!(configs[10].0, "homeassistant/switch/m1/switch/config");
    assert_eq!(
        configs[10].1.to_text(),
        "{\"name\":\"Switch\",\"device_class\":\"switch\",\"state_topic\":\"home/m1/state\",\"command_topic\":\"home/m1/switch/set\",\"availability_topic\":\"home/m1/availability\",\"unique_id\":\"m1_switch\",\"device\":{\"identifiers\":[\"m1\"],\"name\":\"AT4P-W Power Meter\",\"model\":\"AT4P-W\",\"manufacturer\":\"Tuya\"},\"value_template\":\"{{ value_json.switch }}\",\"payload_on\":\"ON\",\"payload_off\":\"OFF\",\"state_on\":\"ON\",\"state_off\":\"OFF\"}"
    );
}

#[test]
fn a_clamp_meter_is_announced() {
    let configs = discovery_configs("m2", DeviceType::Ct);
    assert_eq!(configs.len(), 7);
    assert_eq!(configs[3].0, "homeassistant/sensor/m2/energy/config");
    let energy = configs[3].1.to_text();
    assert!(energy.contains("\"model\":\"SA1\""));
    assert!(energy.ends_with("\"unit_of_measurement\":\"kWh\",\"state_class\":\"total_increasing\"}"));
    let factor = configs[5].1.to_text();
    assert!(factor.ends_with("\"value_template\":\"{{ value_json.power_factor }}\",\"state_class\":\"measurement\"}"));
    assert!(configs[6].1.to_text().contains("\"unit_of_measurement\":\"\u{b0}C\""));
}

#[test]
fn topics_of_announcements_differ() {
    let mut topics: Vec<String> =
        discovery_configs("m1", DeviceType::At4pw).into_iter().map(|c| c.0).collect();
    topics.sort();
    topics.dedup();
    assert_eq!(topics.len(), 11);
    assert_eq!(sensors(DeviceType::At4pw).len(), 10);
    assert_eq!(sensors(DeviceType::Ct).len(), 7);
}

#[test]
fn unique_ids_of_announcements_differ() {
    for (t, n) in [(DeviceType::At4pw, 11), (DeviceType::Ct, 7)] {
        let mut ids: Vec<String> = discovery_configs("m1", t)
            .iter()
            .map(|c| {
                let text = c.1.to_text();
                let rest = text.split("\"unique_id\":\"").nth(1).unwrap();
                rest.split('"').next().unwrap().to_string()
            })
            .collect();
        ids.sort();
        ids.dedup();
        assert_eq!(ids.len(), n);
        assert!(ids.iter().all(|id| id.starts_with("m1_")));
    }
}

#[test]
fn every_published_field_is_announced_once() {
    let plug = dps("{\"20\":1,\"18\":1,\"19\":1,\"123\":1,\"17\":1,\"133\":1,\"134\":1,\"102\":1,\"135\":1,\"124\":1,\"1\":true,\"16\":true}");
    let clamp = dps("{\"6\":\"CP0AAJ4AACI=\",\"32\":1,\"50\":1,\"1\":1,\"131\":1}");
    for (points, t) in [(plug, DeviceType::At4pw), (clamp, DeviceType::Ct)] {
        let configs = discovery_configs("m1", t);
        let state = dps_to_state(&points, t);
        assert!(!state.is_empty());
        for (key, _) in &state {
            let template = format!("\"value_template\":\"{{{{ value_json.{key} }}}}\"");
            let n = configs.iter().filter(|c| c.1.to_text().contains(&template)).count();
            assert_eq!(n, 1, "{key}");
        }
    }
}

#[test]
fn announced_fields_are_in_the_state() {
    let plug = dps("{\"20\":1,\"18\":1,\"19\":1,\"123\":1,\"17\":1,\"133\":1,\"134\":1,\"102\":1,\"135\":1,\"124\":1,\"1\":true}");
    let clamp = dps("{\"6\":\"CP0AAJ4AACI=\",\"32\":1,\"50\":1,\"1\":1,\"131\":1}");
    for (points, t) in [(plug, DeviceType::At4pw), (clamp, DeviceType::Ct)] {
        let state = dps_to_state(&points, t);
        for s in sensors(t) {
            assert!(state.iter().any(|(k, _)| k == s.field), "{}", s.field);
        }
    }
}

#[test]
fn how_the_broker_is_used() {
    let setup = server(true, 10, false).mqtt_setup().unwrap();
    assert_eq!(setup.client_id, "at4pw-m1");
    assert_eq!(setup.host, "fe80::1");
    assert_eq!(setup.port, 1883);
    assert_eq!(setup.keep_alive_secs, 30);
    assert_eq!(setup.will.topic, "home/m1/availability");
    assert_eq!(setup.will.payload, "offline");
    assert!(setup.will.retain);
    assert_eq!(setup.greeting.len(), 12);
    assert_eq!(setup.greeting[11].payload, "online");
    assert!(setup.greeting.iter().all(|p| p.retain));
    assert_eq!(setup.subscription.as_deref(), Some("home/m1/switch/set"));
    assert!(server(false, 10, false).mqtt_setup().is_none());
    let clamp = Server::new(device("10.0.0.2"), Some(mqtt()), DeviceType::Ct, 10, false);
    let setup = clamp.mqtt_setup().unwrap();
    assert_eq!(setup.subscription, None);
    assert_eq!(setup.greeting.len(), 8);
    assert_eq!(setup.greeting[0].topic, "homeassistant/sensor/m1/voltage/config");
    assert!(setup.greeting[0].payload.starts_with("{\"name\":\"Voltage\","));
}

#[test]
fn states_are_published_but_not_kept() {
    let p = state_publication("home/m1/state", &dps("{\"voltage\":\"230.1\"}"));
    assert_eq!(p.topic, "home/m1/state");
    assert_eq!(p.payload, "{\"voltage\":\"230.1\"}");
    assert!(!p.retain);
}

#[test]
fn brackets_come_off() {
    assert_eq!(without_brackets("[[::1]]"), "::1");
    assert_eq!(without_brackets("host"), "host");
    assert_eq!(without_brackets("[]"), "");
}

#[test]
fn orders_for_the_switch() {
    assert_eq!(switch_command("m1", "home/m1/switch/set", b"ON"), Some(true));
    assert_eq!(switch_command("m1", "home/m1/switch/set", b"OFF"), Some(false));
    assert_eq!(switch_command("m1", "home/m1/switch/set", b"on"), None);
    assert_eq!(switch_command("m1", "home/m2/switch/set", b"ON"), None);
}

#[test]
fn a_server_connects_and_queries() {
    let mut s = server(true, 10, false);
    assert_eq!(steps(&mut s, ServerEvent::Start), vec!["connect"]);
    assert_eq!(
        steps(&mut s, ServerEvent::Connected),
        vec!["publish home/m1/availability online true", "query"]
    );
    assert_eq!(
        steps(&mut s, ServerEvent::Queried(Some(dps("{\"20\":1,\"1\":true}")))),
        vec!["report 2 Some(\"home/m1/state\")", "timeout 5", "first heartbeat"]
    );
    assert_eq!(
        steps(&mut s, ServerEvent::FirstHeartbeatSent { now: SEC }),
        vec!["switch", "receive"]
    );
}

#[test]
fn a_server_without_broker_reports_to_the_log() {
    let mut s = server(false, 3, false);
    assert_eq!(steps(&mut s, ServerEvent::Connected), vec!["query"]);
    assert_eq!(
        steps(&mut s, ServerEvent::Queried(None)),
        vec!["timeout 3", "first heartbeat"]
    );
    assert_eq!(
        steps(&mut s, ServerEvent::Queried(Some(dps("{}")))),
        vec!["report 0 None", "timeout 3", "first heartbeat"]
    );
}

#[test]
fn a_server_tries_again_when_it_cannot_connect() {
    let mut s = server(true, 10, false);
    assert_eq!(
        steps(&mut s, ServerEvent::ConnectFailed),
        vec!["publish home/m1/availability offline true", "sleep 10", "connect"]
    );
    let mut s = server(true, 10, true);
    assert_eq!(
        steps(&mut s, ServerEvent::ConnectFailed),
        vec!["publish home/m1/availability offline true", "search"]
    );
    assert_eq!(
        steps(&mut s, ServerEvent::Searched(Some("10.0.0.9".to_string()))),
        vec!["sleep 10", "connect"]
    );
    assert_eq!(s.dev.ip, "10.0.0.9");
    assert_eq!(steps(&mut s, ServerEvent::Searched(None)), vec!["sleep 10", "connect"]);
    assert_eq!(s.dev.ip, "10.0.0.9");
}

#[test]
fn a_server_reconnects() {
    let mut s = server(true, 10, false);
    assert_eq!(
        steps(&mut s, ServerEvent::Received { incoming: Incoming::Lost, now: 0 }),
        vec!["publish home/m1/availability offline true", "sleep 5", "connect"]
    );
    assert_eq!(steps(&mut s, ServerEvent::HeartbeatFailed), vec!["sleep 5", "connect"]);
    assert_eq!(steps(&mut s, ServerEvent::FirstHeartbeatFailed), vec!["connect"]);
}

#[test]
fn rounds_of_a_server() {
    let mut s = server(true, 10, false);
    s.run(ServerEvent::FirstHeartbeatSent { now: 0 });
    let nothing = |now: u128| ServerEvent::Received { incoming: Incoming::Nothing, now };
    assert_eq!(steps(&mut s, nothing(7 * SEC - 1)), vec!["switch", "receive"]);
    assert_eq!(steps(&mut s, nothing(7 * SEC)), vec!["heartbeat"]);
    assert_eq!(
        steps(&mut s, ServerEvent::HeartbeatSent { now: 7 * SEC }),
        vec!["switch", "receive"]
    );
    assert_eq!(steps(&mut s, nothing(10 * SEC)), vec!["switch", "receive"]);
    assert_eq!(s.last_publish, 10 * SEC);
    let some = ServerEvent::Received { incoming: Incoming::Dps(dps("{\"20\":1}")), now: 11 * SEC };
    assert_eq!(steps(&mut s, some), vec!["switch", "receive"]);
    assert_eq!(steps(&mut s, nothing(20 * SEC)), vec!["heartbeat"]);
    assert_eq!(
        steps(&mut s, ServerEvent::HeartbeatSent { now: 20 * SEC }),
        vec!["report 1 Some(\"home/m1/state\")", "switch", "receive"]
    );
    assert_eq!(steps(&mut s, nothing(20 * SEC + 1)), vec!["switch", "receive"]);
    assert_eq!(steps(&mut s, nothing(5)), vec!["switch", "receive"]);
}

#[test]
fn short_polling_intervals() {
    let mut s = server(false, 0, false);
    s.run(ServerEvent::FirstHeartbeatSent { now: 0 });
    let some = ServerEvent::Received { incoming: Incoming::Dps(dps("{\"20\":1}")), now: 0 };
    assert_eq!(steps(&mut s, some), vec!["heartbeat"]);
    assert_eq!(
        steps(&mut s, ServerEvent::HeartbeatSent { now: 0 }),
        vec!["report 1 None", "switch", "receive"]
    );
}

#[test]
fn a_server_forgets_at_a_new_connection() {
    let mut s = server(false, 10, false);
    s.run(ServerEvent::Queried(Some(dps("{\"20\":1}"))));
    assert_eq!(s.dps.len(), 1);
    s.run(ServerEvent::Received { incoming: Incoming::Dps(dps("{\"20\":2,\"18\":3}")), now: 0 });
    assert_eq!(s.dps.len(), 2);
    s.run(ServerEvent::Connected);
    assert_eq!(s.dps.len(), 0);
}

#[test]
fn announcements_need_a_broker() {
    assert_eq!(server(true, 10, false).ha_discovery_configs().len(), 11);
    assert_eq!(server(false, 10, false).ha_discovery_configs().len(), 0);
}
