//! Topics and announcements for Home Assistant, which finds the sensors of a meter by them.

use crate::config::DeviceType;
use crate::json::{
    distinct_keys, distinct_values_are_settled, fields_of, first_key, get_in, key_at_is_first,
    keys_differ, settled, Json, JsonModel,
};
use crate::meter::{
    present_comes_from, reading_from, row_keys_differ, rows_are_present, state_of, state_table,
    Shown,
};
use crate::text::same_text;
use vstd::prelude::*;

verus! {

/// The topic under which the state is published.
pub open spec fn state_topic_of(node_id: Seq<char>) -> Seq<char> {
    "home/"@ + node_id + "/state"@
}

/// The topic under which it is published whether the meter can be reached.
pub open spec fn avail_topic_of(node_id: Seq<char>) -> Seq<char> {
    "home/"@ + node_id + "/availability"@
}

/// The topic under which the switch takes commands.
pub open spec fn cmd_topic_of(node_id: Seq<char>) -> Seq<char> {
    "home/"@ + node_id + "/switch/set"@
}

fn joined(a: &str, b: &str, c: &str) -> (r: String)
    ensures
        r@ == a@ + b@ + c@,
{
    let mut out = a.to_string();
    out.append(b);
    out.append(c);
    out
}

/// The topic under which the state is published.
pub fn state_topic(node_id: &str) -> (r: String)
    ensures
        r@ == state_topic_of(node_id@),
{
    joined("home/", node_id, "/state")
}

/// The topic under which it is published whether the meter can be reached.
pub fn avail_topic(node_id: &str) -> (r: String)
    ensures
        r@ == avail_topic_of(node_id@),
{
    joined("home/", node_id, "/availability")
}

/// The topic under which the switch takes commands.
pub fn cmd_topic(node_id: &str) -> (r: String)
    ensures
        r@ == cmd_topic_of(node_id@),
{
    joined("home/", node_id, "/switch/set")
}

/// A sensor that is announced.
#[derive(Clone, Copy, Debug)]
pub struct Sensor {
    pub obj_id: &'static str,
    pub name: &'static str,
    pub dev_class: &'static str,
    /// Empty where there is none.
    pub unit: &'static str,
    /// The field of the state that holds the value.
    pub field: &'static str,
}

/// The sensors that every meter has.
pub open spec fn common_sensors() -> Seq<Sensor> {
    seq![
        Sensor { obj_id: "voltage", name: "Voltage", dev_class: "voltage", unit: "V", field: "voltage" },
        Sensor { obj_id: "current", name: "Current", dev_class: "current", unit: "A", field: "current" },
        Sensor { obj_id: "power", name: "Power", dev_class: "power", unit: "W", field: "power" },
        Sensor { obj_id: "energy", name: "Total Energy", dev_class: "energy", unit: "kWh", field: "energy" },
        Sensor { obj_id: "frequency", name: "Frequency", dev_class: "frequency", unit: "Hz", field: "frequency" },
        Sensor { obj_id: "power_factor", name: "Power Factor", dev_class: "power_factor", unit: "", field: "power_factor" },
        Sensor { obj_id: "temperature", name: "Temperature", dev_class: "temperature", unit: "°C", field: "temperature" },
    ]
}

/// The sensors that only a plug meter has.
pub open spec fn plug_sensors() -> Seq<Sensor> {
    seq![
        Sensor { obj_id: "session_energy", name: "Session Energy", dev_class: "energy", unit: "kWh", field: "session_energy" },
        Sensor { obj_id: "cost", name: "Cost", dev_class: "monetary", unit: "", field: "cost" },
        Sensor { obj_id: "leakage", name: "Leakage Current", dev_class: "current", unit: "mA", field: "leakage_ma" },
    ]
}

/// The sensors of a meter.
pub open spec fn sensors_of(dev_type: DeviceType) -> Seq<Sensor> {
    match dev_type {
        DeviceType::At4pw => common_sensors() + plug_sensors(),
        DeviceType::Ct => common_sensors(),
    }
}

/// The sensors of a meter.
pub fn sensors(dev_type: DeviceType) -> (r: Vec<Sensor>)
    ensures
        r@ == sensors_of(dev_type),
{
    let mut all: Vec<Sensor> = Vec::new();
    all.push(Sensor { obj_id: "voltage", name: "Voltage", dev_class: "voltage", unit: "V", field: "voltage" });
    all.push(Sensor { obj_id: "current", name: "Current", dev_class: "current", unit: "A", field: "current" });
    all.push(Sensor { obj_id: "power", name: "Power", dev_class: "power", unit: "W", field: "power" });
    all.push(Sensor { obj_id: "energy", name: "Total Energy", dev_class: "energy", unit: "kWh", field: "energy" });
    all.push(Sensor { obj_id: "frequency", name: "Frequency", dev_class: "frequency", unit: "Hz", field: "frequency" });
    all.push(Sensor { obj_id: "power_factor", name: "Power Factor", dev_class: "power_factor", unit: "", field: "power_factor" });
    all.push(Sensor { obj_id: "temperature", name: "Temperature", dev_class: "temperature", unit: "°C", field: "temperature" });
    assert(all@ =~= common_sensors());
    if dev_type == DeviceType::At4pw {
        all.push(Sensor { obj_id: "session_energy", name: "Session Energy", dev_class: "energy", unit: "kWh", field: "session_energy" });
        all.push(Sensor { obj_id: "cost", name: "Cost", dev_class: "monetary", unit: "", field: "cost" });
        all.push(Sensor { obj_id: "leakage", name: "Leakage Current", dev_class: "current", unit: "mA", field: "leakage_ma" });
        assert(all@ =~= common_sensors() + plug_sensors());
    }
    all
}

/// The meter as a whole in an announcement.
pub open spec fn device_of(node_id: Seq<char>, dev_type: DeviceType) -> JsonModel {
    JsonModel::Object(
        seq![
            ("identifiers"@, JsonModel::Array(seq![JsonModel::Str(node_id)])),
            (
                "name"@,
                JsonModel::Str(
                    match dev_type {
                        DeviceType::At4pw => "AT4P-W Power Meter"@,
                        DeviceType::Ct => "SA1 CT Power Meter"@,
                    },
                ),
            ),
            (
                "model"@,
                JsonModel::Str(
                    match dev_type {
                        DeviceType::At4pw => "AT4P-W"@,
                        DeviceType::Ct => "SA1"@,
                    },
                ),
            ),
            ("manufacturer"@, JsonModel::Str("Tuya"@)),
        ],
    )
}

/// The announcement of a sensor.
pub open spec fn sensor_config(node_id: Seq<char>, dev_type: DeviceType, sensor: Sensor) -> JsonModel {
    JsonModel::Object(
        seq![
            ("name"@, JsonModel::Str(sensor.name@)),
            ("device_class"@, JsonModel::Str(sensor.dev_class@)),
            ("state_topic"@, JsonModel::Str(state_topic_of(node_id))),
            ("availability_topic"@, JsonModel::Str(avail_topic_of(node_id))),
            ("unique_id"@, JsonModel::Str(node_id + "_"@ + sensor.obj_id@)),
            ("device"@, device_of(node_id, dev_type)),
            ("value_template"@, JsonModel::Str("{{ value_json."@ + sensor.field@ + " }}"@)),
        ] + (if sensor.unit@ == ""@ {
            Seq::empty()
        } else {
            seq![("unit_of_measurement"@, JsonModel::Str(sensor.unit@))]
        }) + seq![
            (
                "state_class"@,
                JsonModel::Str(
                    if sensor.dev_class@ == "energy"@ {
                        "total_increasing"@
                    } else {
                        "measurement"@
                    },
                ),
            ),
        ],
    )
}

/// The announcement of the switch.
pub open spec fn switch_config(node_id: Seq<char>, dev_type: DeviceType) -> JsonModel {
    JsonModel::Object(
        seq![
            ("name"@, JsonModel::Str("Switch"@)),
            ("device_class"@, JsonModel::Str("switch"@)),
            ("state_topic"@, JsonModel::Str(state_topic_of(node_id))),
            ("command_topic"@, JsonModel::Str(cmd_topic_of(node_id))),
            ("availability_topic"@, JsonModel::Str(avail_topic_of(node_id))),
            ("unique_id"@, JsonModel::Str(node_id + "_switch"@)),
            ("device"@, device_of(node_id, dev_type)),
            ("value_template"@, JsonModel::Str("{{ value_json.switch }}"@)),
            ("payload_on"@, JsonModel::Str("ON"@)),
            ("payload_off"@, JsonModel::Str("OFF"@)),
            ("state_on"@, JsonModel::Str("ON"@)),
            ("state_off"@, JsonModel::Str("OFF"@)),
        ],
    )
}

/// The topic under which a sensor is announced.
pub open spec fn sensor_topic_of(node_id: Seq<char>, obj_id: Seq<char>) -> Seq<char> {
    "homeassistant/sensor/"@ + node_id + "/"@ + obj_id + "/config"@
}

/// The topic under which the switch is announced.
pub open spec fn switch_topic_of(node_id: Seq<char>) -> Seq<char> {
    "homeassistant/switch/"@ + node_id + "/switch/config"@
}

/// The announcements of a meter: its sensors, and the switch of a plug meter.
pub open spec fn announcements(node_id: Seq<char>, dev_type: DeviceType) -> Seq<
    (Seq<char>, JsonModel),
> {
    let sensors = sensors_of(dev_type);
    let configs = Seq::new(
        sensors.len(),
        |i: int|
            (
                sensor_topic_of(node_id, sensors[i].obj_id@),
                sensor_config(node_id, dev_type, sensors[i]),
            ),
    );
    match dev_type {
        DeviceType::At4pw => configs.push(
            (switch_topic_of(node_id), switch_config(node_id, dev_type)),
        ),
        DeviceType::Ct => configs,
    }
}

/// Texts that differ in the middle differ.
proof fn middles_differ(a: Seq<char>, b: Seq<char>, c: Seq<char>, d: Seq<char>)
    requires
        b != c,
    ensures
        a + b + d != a + c + d,
{
    let x = a + b + d;
    let y = a + c + d;
    assert(x.len() == a.len() + b.len() + d.len());
    assert(y.len() == a.len() + c.len() + d.len());
    if x == y {
        assert(x.subrange(a.len() as int, (a.len() + b.len()) as int) =~= b);
        assert(y.subrange(a.len() as int, (a.len() + b.len()) as int) =~= c);
    }
}

/// The place of a sensor among those that a meter can have.
spec fn sensor_rank(obj_id: Seq<char>) -> int {
    if obj_id.len() == 7 && obj_id[0] == 'v' {
        0
    } else if obj_id.len() == 7 && obj_id[0] == 'c' {
        1
    } else if obj_id.len() == 5 {
        2
    } else if obj_id.len() == 6 {
        3
    } else if obj_id.len() == 9 {
        4
    } else if obj_id.len() == 12 {
        5
    } else if obj_id.len() == 11 {
        6
    } else if obj_id.len() == 14 {
        7
    } else if obj_id.len() == 4 {
        8
    } else {
        9
    }
}

proof fn sensors_are_ranked(dev_type: DeviceType, i: int)
    requires
        0 <= i < sensors_of(dev_type).len(),
    ensures
        sensor_rank(sensors_of(dev_type)[i].obj_id@) == i,
{
    reveal_strlit("voltage");
    reveal_strlit("current");
    reveal_strlit("power");
    reveal_strlit("energy");
    reveal_strlit("frequency");
    reveal_strlit("power_factor");
    reveal_strlit("temperature");
    reveal_strlit("session_energy");
    reveal_strlit("cost");
    reveal_strlit("leakage");
}

/// No two announcements of a meter have the same topic.
pub proof fn topics_differ(node_id: Seq<char>, dev_type: DeviceType, i: int, j: int)
    requires
        0 <= i < j < announcements(node_id, dev_type).len(),
    ensures
        announcements(node_id, dev_type)[i].0 != announcements(node_id, dev_type)[j].0,
{
    let all = announcements(node_id, dev_type);
    let sensors = sensors_of(dev_type);
    sensors_are_ranked(dev_type, i);
    if j < sensors.len() {
        sensors_are_ranked(dev_type, j);
        middles_differ(
            "homeassistant/sensor/"@ + node_id + "/"@,
            sensors[i].obj_id@,
            sensors[j].obj_id@,
            "/config"@,
        );
    } else {
        reveal_strlit("homeassistant/sensor/");
        reveal_strlit("homeassistant/switch/");
        assert(all[i].0[15] == 'e');
        assert(all[j].0[15] == 'w');
    }
}

/// The place of a key in the announcement of a sensor.
spec fn sensor_key_rank(key: Seq<char>) -> int {
    if key.len() == 4 {
        0
    } else if key.len() == 12 {
        1
    } else if key.len() == 11 && key[6] == 't' {
        2
    } else if key.len() == 18 {
        3
    } else if key.len() == 9 {
        4
    } else if key.len() == 6 {
        5
    } else if key.len() == 14 {
        6
    } else if key.len() == 19 {
        7
    } else {
        8
    }
}

/// The place of a key in the announcement of the switch.
spec fn switch_key_rank(key: Seq<char>) -> int {
    if key.len() == 4 {
        0
    } else if key.len() == 12 {
        1
    } else if key.len() == 11 && key[0] == 's' {
        2
    } else if key.len() == 13 {
        3
    } else if key.len() == 18 {
        4
    } else if key.len() == 9 && key[0] == 'u' {
        5
    } else if key.len() == 6 {
        6
    } else if key.len() == 14 {
        7
    } else if key.len() == 10 {
        8
    } else if key.len() == 11 {
        9
    } else if key.len() == 8 {
        10
    } else {
        11
    }
}

proof fn device_keys_differ(node_id: Seq<char>, dev_type: DeviceType)
    ensures
        keys_differ(device_of(node_id, dev_type)),
{
    reveal_strlit("identifiers");
    reveal_strlit("name");
    reveal_strlit("model");
    reveal_strlit("manufacturer");
    let fields = device_of(node_id, dev_type)->Object_0;
    assert(fields[0].0.len() == 11 && fields[1].0.len() == 4 && fields[2].0.len() == 5
        && fields[3].0.len() == 12);
    assert(distinct_keys(fields));
    let ids = fields[0].1;
    assert(keys_differ(ids->Array_0[0]));
    assert(keys_differ(ids));
    assert(keys_differ(fields[1].1) && keys_differ(fields[2].1) && keys_differ(fields[3].1));
}

proof fn sensor_keys_differ(node_id: Seq<char>, dev_type: DeviceType, sensor: Sensor)
    ensures
        keys_differ(sensor_config(node_id, dev_type, sensor)),
{
    reveal_strlit("name");
    reveal_strlit("device_class");
    reveal_strlit("state_topic");
    reveal_strlit("availability_topic");
    reveal_strlit("unique_id");
    reveal_strlit("device");
    reveal_strlit("value_template");
    reveal_strlit("unit_of_measurement");
    reveal_strlit("state_class");
    device_keys_differ(node_id, dev_type);
    let fields = sensor_config(node_id, dev_type, sensor)->Object_0;
    assert forall|i: int, j: int| 0 <= i < j < fields.len() implies (#[trigger] fields[i]).0 != (
    #[trigger] fields[j]).0 by {
        assert(sensor_key_rank(fields[i].0) < sensor_key_rank(fields[j].0));
    }
    assert forall|i: int| 0 <= i < fields.len() implies keys_differ((#[trigger] fields[i]).1) by {
        if i != 5 {
            assert(fields[i].1 is Str);
        }
    }
}

proof fn switch_keys_differ(node_id: Seq<char>, dev_type: DeviceType)
    ensures
        keys_differ(switch_config(node_id, dev_type)),
{
    reveal_strlit("name");
    reveal_strlit("device_class");
    reveal_strlit("state_topic");
    reveal_strlit("command_topic");
    reveal_strlit("availability_topic");
    reveal_strlit("unique_id");
    reveal_strlit("device");
    reveal_strlit("value_template");
    reveal_strlit("payload_on");
    reveal_strlit("payload_off");
    reveal_strlit("state_on");
    reveal_strlit("state_off");
    device_keys_differ(node_id, dev_type);
    let fields = switch_config(node_id, dev_type)->Object_0;
    assert forall|i: int, j: int| 0 <= i < j < fields.len() implies (#[trigger] fields[i]).0 != (
    #[trigger] fields[j]).0 by {
        assert(switch_key_rank(fields[i].0) < switch_key_rank(fields[j].0));
    }
    assert forall|i: int| 0 <= i < fields.len() implies keys_differ((#[trigger] fields[i]).1) by {
        if i != 6 {
            assert(fields[i].1 is Str);
        }
    }
}

/// No key occurs twice in an announcement, so that it is written as it is.
pub proof fn announcements_are_settled(node_id: Seq<char>, dev_type: DeviceType, i: int)
    requires
        0 <= i < announcements(node_id, dev_type).len(),
    ensures
        settled(announcements(node_id, dev_type)[i].1) == announcements(node_id, dev_type)[i].1,
{
    let sensors = sensors_of(dev_type);
    if i < sensors.len() {
        sensor_keys_differ(node_id, dev_type, sensors[i]);
    } else {
        switch_keys_differ(node_id, dev_type);
    }
    distinct_values_are_settled(announcements(node_id, dev_type)[i].1);
}

/// What shows a field of the state.
pub open spec fn template(key: Seq<char>) -> Seq<char> {
    "{{ value_json."@ + key + " }}"@
}

/// Whether an announcement is for a field of the state.
pub open spec fn is_for(config: JsonModel, key: Seq<char>) -> bool {
    get_in(config, "value_template"@) == Some(JsonModel::Str(template(key)))
}

/// The field of the state that an announcement is for.
pub open spec fn announced_key(dev_type: DeviceType, i: int) -> Seq<char> {
    if i < sensors_of(dev_type).len() {
        sensors_of(dev_type)[i].field@
    } else {
        "switch"@
    }
}

/// The end of a unique id: what stands behind the name of the node.
spec fn id_end(dev_type: DeviceType, i: int) -> Seq<char> {
    if i < sensors_of(dev_type).len() {
        "_"@ + sensors_of(dev_type)[i].obj_id@
    } else {
        "_switch"@
    }
}

/// The template and the unique id that stand in an announcement.
proof fn announcement_fields(node_id: Seq<char>, dev_type: DeviceType, i: int)
    requires
        0 <= i < announcements(node_id, dev_type).len(),
    ensures
        is_for(announcements(node_id, dev_type)[i].1, announced_key(dev_type, i)),
        get_in(announcements(node_id, dev_type)[i].1, "unique_id"@) == Some(
            JsonModel::Str(node_id + id_end(dev_type, i)),
        ),
{
    let config = announcements(node_id, dev_type)[i].1;
    let fields = config->Object_0;
    let sensors = sensors_of(dev_type);
    reveal_strlit("name");
    reveal_strlit("device_class");
    reveal_strlit("state_topic");
    reveal_strlit("availability_topic");
    reveal_strlit("unique_id");
    reveal_strlit("device");
    reveal_strlit("value_template");
    if i < sensors.len() {
        assert(config == sensor_config(node_id, dev_type, sensors[i]));
        assert forall|k: int| 0 <= k < 7 implies sensor_key_rank((#[trigger] fields[k]).0) == k by {}
        first_key(fields, "value_template"@, 6);
        first_key(fields, "unique_id"@, 4);
        assert(node_id + "_"@ + sensors[i].obj_id@ =~= node_id + id_end(dev_type, i));
    } else {
        reveal_strlit("command_topic");
        assert(config == switch_config(node_id, dev_type));
        assert forall|k: int| 0 <= k < 8 implies switch_key_rank((#[trigger] fields[k]).0) == k by {}
        first_key(fields, "value_template"@, 7);
        first_key(fields, "unique_id"@, 5);
        reveal_strlit("{{ value_json.");
        reveal_strlit("switch");
        reveal_strlit(" }}");
        reveal_strlit("{{ value_json.switch }}");
        assert(template("switch"@) =~= "{{ value_json.switch }}"@);
    }
}

/// No two announcements of a meter have the same unique id.
pub proof fn unique_ids_differ(node_id: Seq<char>, dev_type: DeviceType, i: int, j: int)
    requires
        0 <= i < j < announcements(node_id, dev_type).len(),
    ensures
        ({
            let all = announcements(node_id, dev_type);
            &&& get_in(all[i].1, "unique_id"@) is Some
            &&& get_in(all[i].1, "unique_id"@) != get_in(all[j].1, "unique_id"@)
        }),
{
    announcement_fields(node_id, dev_type, i);
    announcement_fields(node_id, dev_type, j);
    sensors_are_ranked(dev_type, i);
    let sensors = sensors_of(dev_type);
    reveal_strlit("_");
    let empty = Seq::<char>::empty();
    if j < sensors.len() {
        sensors_are_ranked(dev_type, j);
        middles_differ("_"@, sensors[i].obj_id@, sensors[j].obj_id@, empty);
        assert("_"@ + sensors[i].obj_id@ + empty =~= id_end(dev_type, i));
        assert("_"@ + sensors[j].obj_id@ + empty =~= id_end(dev_type, j));
    } else {
        reveal_strlit("_switch");
        let other = id_end(dev_type, i);
        assert(other != "_switch"@) by {
            if other == "_switch"@ {
                assert(sensors[i].obj_id@.len() == 6);
                assert(other[1] == sensors[i].obj_id@[0]);
                assert(i == 3);
                reveal_strlit("energy");
            }
        }
    }
    middles_differ(node_id, id_end(dev_type, i), id_end(dev_type, j), empty);
    assert(node_id + id_end(dev_type, i) + empty =~= node_id + id_end(dev_type, i));
    assert(node_id + id_end(dev_type, j) + empty =~= node_id + id_end(dev_type, j));
}

/// The row of the state that an announcement is for.
spec fn row_of(dev_type: DeviceType, i: int) -> int {
    match dev_type {
        DeviceType::At4pw => if i == 4 {
            5
        } else if i == 5 {
            6
        } else if i == 6 {
            8
        } else if i == 7 {
            4
        } else if i == 8 {
            7
        } else {
            i
        },
        DeviceType::Ct => if i == 3 {
            5
        } else if i == 4 {
            3
        } else if i == 5 {
            4
        } else {
            i
        },
    }
}

/// The announcement that is for a row of the state.
spec fn announcement_of(dev_type: DeviceType, r: int) -> int {
    match dev_type {
        DeviceType::At4pw => if r == 5 {
            4
        } else if r == 6 {
            5
        } else if r == 8 {
            6
        } else if r == 4 {
            7
        } else if r == 7 {
            8
        } else {
            r
        },
        DeviceType::Ct => if r == 5 {
            3
        } else if r == 3 {
            4
        } else if r == 4 {
            5
        } else {
            r
        },
    }
}

proof fn rows_of_announcements(node_id: Seq<char>, dev_type: DeviceType, i: int)
    requires
        0 <= i < announcements(node_id, dev_type).len(),
    ensures
        announcements(node_id, dev_type).len() == state_table(dev_type).len(),
        0 <= row_of(dev_type, i) < state_table(dev_type).len(),
        state_table(dev_type)[row_of(dev_type, i)].0@ == announced_key(dev_type, i),
        announcement_of(dev_type, row_of(dev_type, i)) == i,
{
}

/// Whether a meter has sent every data point that its state speaks of.
pub open spec fn complete(dps: JsonModel, dev_type: DeviceType) -> bool {
    forall|r: int|
        0 <= r < state_table(dev_type).len() ==> reading_from(
            dps,
            (#[trigger] state_table(dev_type)[r]).1,
        ) is Some
}

/// Whether a state has a field.
pub open spec fn has_field(state: Seq<(Seq<char>, Shown)>, key: Seq<char>) -> bool {
    exists|j: int| 0 <= j < state.len() && (#[trigger] state[j]).0 == key
}

/// Every announcement, that of the switch among them, is for a field that stands in the state of
/// a meter that has sent all its data points.
pub proof fn announced_fields_are_published(
    node_id: Seq<char>,
    dps: JsonModel,
    dev_type: DeviceType,
    i: int,
)
    requires
        complete(dps, dev_type),
        0 <= i < announcements(node_id, dev_type).len(),
    ensures
        is_for(announcements(node_id, dev_type)[i].1, announced_key(dev_type, i)),
        has_field(state_of(dps, dev_type), announced_key(dev_type, i)),
{
    announcement_fields(node_id, dev_type, i);
    rows_of_announcements(node_id, dev_type, i);
    let r = row_of(dev_type, i);
    assert(reading_from(dps, state_table(dev_type)[r].1) is Some);
    let k = rows_are_present(dps, state_table(dev_type), r);
    assert(state_of(dps, dev_type)[k].0 == announced_key(dev_type, i));
}

/// Whether exactly one of some announcements is for a field of the state.
pub open spec fn announced_once(all: Seq<(Seq<char>, JsonModel)>, key: Seq<char>) -> bool {
    exists|i: int|
        0 <= i < all.len() && is_for(#[trigger] all[i].1, key) && forall|k: int|
            0 <= k < all.len() && is_for(#[trigger] all[k].1, key) ==> k == i
}

/// Every field of a state, the switch among them, has exactly one announcement.
pub proof fn published_fields_are_announced(
    node_id: Seq<char>,
    dps: JsonModel,
    dev_type: DeviceType,
    n: int,
)
    requires
        0 <= n < state_of(dps, dev_type).len(),
    ensures
        announced_once(announcements(node_id, dev_type), state_of(dps, dev_type)[n].0),
{
    let all = announcements(node_id, dev_type);
    let key = state_of(dps, dev_type)[n].0;
    let r = present_comes_from(dps, state_table(dev_type), n);
    let i = announcement_of(dev_type, r);
    rows_of_announcements(node_id, dev_type, 0);
    assert(0 <= i < all.len() && row_of(dev_type, i) == r);
    rows_of_announcements(node_id, dev_type, i);
    announcement_fields(node_id, dev_type, i);
    assert(is_for(all[i].1, key));
    assert forall|k: int| 0 <= k < all.len() && is_for(#[trigger] all[k].1, key) implies k == i by {
        announcement_fields(node_id, dev_type, k);
        rows_of_announcements(node_id, dev_type, k);
        if announced_key(dev_type, k) != key {
            middles_differ("{{ value_json."@, announced_key(dev_type, k), key, " }}"@);
        }
        row_keys_differ(dev_type, row_of(dev_type, k), r);
    }
}

/// Whether an announcement gives a name, a kind and a unit to what it is for; an empty unit stands
/// for none.
pub open spec fn describes(
    config: JsonModel,
    name: Seq<char>,
    dev_class: Seq<char>,
    unit: Seq<char>,
) -> bool {
    &&& get_in(config, "name"@) == Some(JsonModel::Str(name))
    &&& get_in(config, "device_class"@) == Some(JsonModel::Str(dev_class))
    &&& get_in(config, "unit_of_measurement"@) == (if unit.len() == 0 {
        None
    } else {
        Some(JsonModel::Str(unit))
    })
}

/// Whether an announcement is for something that only grows, or for something that is measured.
pub open spec fn counts_as(config: JsonModel, state_class: Seq<char>) -> bool {
    get_in(config, "state_class"@) == Some(JsonModel::Str(state_class))
}

/// What stands under the keys of the announcement of a sensor.
proof fn sensor_fields(node_id: Seq<char>, dev_type: DeviceType, sensor: Sensor)
    ensures
        ({
            let m = sensor_config(node_id, dev_type, sensor);
            &&& describes(m, sensor.name@, sensor.dev_class@, sensor.unit@)
            &&& counts_as(
                m,
                if sensor.dev_class@ == "energy"@ {
                    "total_increasing"@
                } else {
                    "measurement"@
                },
            )
            &&& get_in(m, "state_topic"@) == Some(JsonModel::Str("home/"@ + node_id + "/state"@))
            &&& get_in(m, "availability_topic"@) == Some(
                JsonModel::Str("home/"@ + node_id + "/availability"@),
            )
            &&& get_in(m, "device"@) == Some(device_of(node_id, dev_type))
        }),
{
    reveal_strlit("");
    reveal_strlit("name");
    reveal_strlit("device_class");
    reveal_strlit("state_topic");
    reveal_strlit("availability_topic");
    reveal_strlit("unique_id");
    reveal_strlit("device");
    reveal_strlit("value_template");
    reveal_strlit("unit_of_measurement");
    reveal_strlit("state_class");
    let m = sensor_config(node_id, dev_type, sensor);
    let fields = m->Object_0;
    assert forall|k: int| 0 <= k < 7 implies sensor_key_rank((#[trigger] fields[k]).0) == k by {}
    first_key(fields, "name"@, 0);
    first_key(fields, "device_class"@, 1);
    first_key(fields, "state_topic"@, 2);
    first_key(fields, "availability_topic"@, 3);
    first_key(fields, "device"@, 5);
    if sensor.unit@ == ""@ {
        assert(fields.len() == 8);
        assert(fields[7].0 == "state_class"@);
        assert(sensor_key_rank("state_class"@) == 8);
        first_key(fields, "state_class"@, 7);
        key_at_is_first(fields, "unit_of_measurement"@);
        assert(sensor_key_rank("unit_of_measurement"@) == 7);
        assert(sensor.unit@.len() == 0);
    } else {
        assert(fields[7].0 == "unit_of_measurement"@ && fields[8].0 == "state_class"@);
        assert(sensor_key_rank("state_class"@) == 8 && sensor_key_rank("unit_of_measurement"@)
            == 7);
        first_key(fields, "unit_of_measurement"@, 7);
        first_key(fields, "state_class"@, 8);
        if sensor.unit@.len() == 0 {
            assert(sensor.unit@ =~= ""@);
        }
    }
}

/// What stands under the keys of the announcement of the switch.
proof fn switch_fields(node_id: Seq<char>, dev_type: DeviceType)
    ensures
        ({
            let m = switch_config(node_id, dev_type);
            &&& get_in(m, "name"@) == Some(JsonModel::Str("Switch"@))
            &&& get_in(m, "device_class"@) == Some(JsonModel::Str("switch"@))
            &&& get_in(m, "state_topic"@) == Some(JsonModel::Str("home/"@ + node_id + "/state"@))
            &&& get_in(m, "command_topic"@) == Some(
                JsonModel::Str("home/"@ + node_id + "/switch/set"@),
            )
            &&& get_in(m, "availability_topic"@) == Some(
                JsonModel::Str("home/"@ + node_id + "/availability"@),
            )
            &&& get_in(m, "device"@) == Some(device_of(node_id, dev_type))
            &&& get_in(m, "payload_on"@) == Some(JsonModel::Str("ON"@))
            &&& get_in(m, "payload_off"@) == Some(JsonModel::Str("OFF"@))
            &&& get_in(m, "state_on"@) == Some(JsonModel::Str("ON"@))
            &&& get_in(m, "state_off"@) == Some(JsonModel::Str("OFF"@))
        }),
{
    reveal_strlit("name");
    reveal_strlit("device_class");
    reveal_strlit("state_topic");
    reveal_strlit("command_topic");
    reveal_strlit("availability_topic");
    reveal_strlit("unique_id");
    reveal_strlit("device");
    reveal_strlit("value_template");
    reveal_strlit("payload_on");
    reveal_strlit("payload_off");
    reveal_strlit("state_on");
    reveal_strlit("state_off");
    let fields = switch_config(node_id, dev_type)->Object_0;
    assert forall|k: int| 0 <= k < 12 implies switch_key_rank((#[trigger] fields[k]).0) == k by {}
    first_key(fields, "name"@, 0);
    first_key(fields, "device_class"@, 1);
    first_key(fields, "state_topic"@, 2);
    first_key(fields, "command_topic"@, 3);
    first_key(fields, "availability_topic"@, 4);
    first_key(fields, "device"@, 6);
    first_key(fields, "payload_on"@, 8);
    first_key(fields, "payload_off"@, 9);
    first_key(fields, "state_on"@, 10);
    first_key(fields, "state_off"@, 11);
}

/// Every announcement points to the topics of the node, and names the meter: by the node, by what
/// kind of meter it is, and by who has made it.
pub proof fn announcements_name_node_and_meter(node_id: Seq<char>, dev_type: DeviceType, i: int)
    requires
        0 <= i < announcements(node_id, dev_type).len(),
    ensures
        ({
            let m = announcements(node_id, dev_type)[i].1;
            &&& get_in(m, "state_topic"@) == Some(JsonModel::Str("home/"@ + node_id + "/state"@))
            &&& get_in(m, "availability_topic"@) == Some(
                JsonModel::Str("home/"@ + node_id + "/availability"@),
            )
            &&& get_in(m, "device"@) matches Some(d) && get_in(d, "identifiers"@) == Some(
                JsonModel::Array(seq![JsonModel::Str(node_id)]),
            ) && get_in(d, "manufacturer"@) == Some(JsonModel::Str("Tuya"@)) && get_in(d, "name"@)
                == Some(
                JsonModel::Str(
                    if dev_type == DeviceType::Ct {
                        "SA1 CT Power Meter"@
                    } else {
                        "AT4P-W Power Meter"@
                    },
                ),
            ) && get_in(d, "model"@) == Some(
                JsonModel::Str(
                    if dev_type == DeviceType::Ct {
                        "SA1"@
                    } else {
                        "AT4P-W"@
                    },
                ),
            )
        }),
{
    let sensors = sensors_of(dev_type);
    if i < sensors.len() {
        sensor_fields(node_id, dev_type, sensors[i]);
    } else {
        switch_fields(node_id, dev_type);
    }
    reveal_strlit("identifiers");
    reveal_strlit("name");
    reveal_strlit("model");
    reveal_strlit("manufacturer");
    let fields = device_of(node_id, dev_type)->Object_0;
    assert(fields[0].0.len() == 11 && fields[1].0.len() == 4 && fields[2].0.len() == 5
        && fields[3].0.len() == 12);
    first_key(fields, "identifiers"@, 0);
    first_key(fields, "name"@, 1);
    first_key(fields, "model"@, 2);
    first_key(fields, "manufacturer"@, 3);
}

/// The announcement of a sensor goes to a topic of the node with the name under which the sensor
/// is unique there; that of the switch, which only a plug meter has, to a topic for switches.
pub proof fn announcements_have_their_topic(node_id: Seq<char>, dev_type: DeviceType, i: int)
    requires
        0 <= i < announcements(node_id, dev_type).len(),
    ensures
        ({
            let (topic, m) = announcements(node_id, dev_type)[i];
            let id = get_in(m, "unique_id"@);
            if i == 10 {
                dev_type == DeviceType::At4pw && topic == "homeassistant/switch/"@ + node_id
                    + "/switch/config"@ && id == Some(JsonModel::Str(node_id + "_switch"@))
            } else {
                exists|obj: Seq<char>|
                    id == Some(JsonModel::Str(node_id + ("_"@ + obj))) && topic == #[trigger] (
                    "homeassistant/sensor/"@ + node_id + "/"@ + obj) + "/config"@
            }
        }),
{
    announcement_fields(node_id, dev_type, i);
    let sensors = sensors_of(dev_type);
    if i < sensors.len() {
        let obj = sensors[i].obj_id@;
        let topic = announcements(node_id, dev_type)[i].0;
        assert(topic == ("homeassistant/sensor/"@ + node_id + "/"@ + obj) + "/config"@);
    }
}

/// What is announced for a field of the state goes by the name of the field, both in its topic and
/// in its unique id; leakage goes without its unit. Only the switch is announced as a switch.
pub proof fn announcements_go_by_their_field(
    node_id: Seq<char>,
    dev_type: DeviceType,
    i: int,
    key: Seq<char>,
)
    requires
        0 <= i < announcements(node_id, dev_type).len(),
        is_for(announcements(node_id, dev_type)[i].1, key),
    ensures
        ({
            let (topic, m) = announcements(node_id, dev_type)[i];
            let name = if key == "leakage_ma"@ {
                "leakage"@
            } else {
                key
            };
            let kind = if key == "switch"@ {
                "homeassistant/switch/"@
            } else {
                "homeassistant/sensor/"@
            };
            &&& topic == kind + node_id + "/"@ + name + "/config"@
            &&& get_in(m, "unique_id"@) == Some(JsonModel::Str(node_id + ("_"@ + name)))
            &&& key == "switch"@ ==> get_in(m, "name"@) == Some(JsonModel::Str("Switch"@)) && get_in(
                m,
                "device_class"@,
            ) == Some(JsonModel::Str("switch"@))
        }),
{
    announcement_fields(node_id, dev_type, i);
    if announced_key(dev_type, i) != key {
        middles_differ("{{ value_json."@, announced_key(dev_type, i), key, " }}"@);
    }
    reveal_strlit("voltage");
    reveal_strlit("current");
    reveal_strlit("power");
    reveal_strlit("energy");
    reveal_strlit("frequency");
    reveal_strlit("power_factor");
    reveal_strlit("temperature");
    reveal_strlit("session_energy");
    reveal_strlit("cost");
    reveal_strlit("leakage_ma");
    reveal_strlit("switch");
    let sensors = sensors_of(dev_type);
    if i < sensors.len() {
        assert(key.len() == 10 <==> i == 9);
        assert(key.len() == 6 ==> key[0] == 'e');
    } else {
        assert(key.len() == 6 && key[0] == 's');
        switch_fields(node_id, dev_type);
        reveal_strlit("/");
        reveal_strlit("/config");
        reveal_strlit("/switch/config");
        reveal_strlit("_");
        reveal_strlit("_switch");
        assert("/"@ + "switch"@ + "/config"@ =~= "/switch/config"@);
        assert("_"@ + "switch"@ =~= "_switch"@);
        assert(switch_topic_of(node_id) =~= "homeassistant/switch/"@ + node_id + "/"@ + "switch"@
            + "/config"@);
    }
}

/// The announcement for a field of the state is the one at its place.
proof fn announcement_for_row(node_id: Seq<char>, dev_type: DeviceType, i: int, r: int)
    requires
        0 <= i < announcements(node_id, dev_type).len(),
        0 <= r < state_table(dev_type).len(),
        is_for(announcements(node_id, dev_type)[i].1, state_table(dev_type)[r].0@),
    ensures
        i == announcement_of(dev_type, r),
{
    let key = state_table(dev_type)[r].0@;
    announcement_fields(node_id, dev_type, i);
    rows_of_announcements(node_id, dev_type, i);
    if announced_key(dev_type, i) != key {
        middles_differ("{{ value_json."@, announced_key(dev_type, i), key, " }}"@);
    }
    row_keys_differ(dev_type, row_of(dev_type, i), r);
}

/// What is announced for the fields that every meter has: their names, kinds and units. Energy
/// grows, everything else is measured.
pub proof fn common_fields_have_their_units(node_id: Seq<char>, dev_type: DeviceType, i: int)
    requires
        0 <= i < announcements(node_id, dev_type).len(),
    ensures
        ({
            let m = announcements(node_id, dev_type)[i].1;
            &&& is_for(m, "voltage"@) ==> describes(m, "Voltage"@, "voltage"@, "V"@) && counts_as(
                m,
                "measurement"@,
            )
            &&& is_for(m, "current"@) ==> describes(m, "Current"@, "current"@, "A"@) && counts_as(
                m,
                "measurement"@,
            )
            &&& is_for(m, "power"@) ==> describes(m, "Power"@, "power"@, "W"@) && counts_as(
                m,
                "measurement"@,
            )
            &&& is_for(m, "energy"@) ==> describes(m, "Total Energy"@, "energy"@, "kWh"@)
                && counts_as(m, "total_increasing"@)
            &&& is_for(m, "frequency"@) ==> describes(m, "Frequency"@, "frequency"@, "Hz"@)
                && counts_as(m, "measurement"@)
            &&& is_for(m, "power_factor"@) ==> describes(m, "Power Factor"@, "power_factor"@, ""@)
                && counts_as(m, "measurement"@)
            &&& is_for(m, "temperature"@) ==> describes(
                m,
                "Temperature"@,
                "temperature"@,
                "°C"@,
            ) && counts_as(m, "measurement"@)
        }),
{
    let m = announcements(node_id, dev_type)[i].1;
    let sensors = sensors_of(dev_type);
    let clamp = dev_type == DeviceType::Ct;
    classes_of_energy();
    if is_for(m, "voltage"@) {
        announcement_for_row(node_id, dev_type, i, 0);
        sensor_fields(node_id, dev_type, sensors[0]);
    }
    if is_for(m, "current"@) {
        announcement_for_row(node_id, dev_type, i, 1);
        sensor_fields(node_id, dev_type, sensors[1]);
    }
    if is_for(m, "power"@) {
        announcement_for_row(node_id, dev_type, i, 2);
        sensor_fields(node_id, dev_type, sensors[2]);
    }
    if is_for(m, "energy"@) {
        announcement_for_row(node_id, dev_type, i, if clamp {
            5
        } else {
            3
        });
        sensor_fields(node_id, dev_type, sensors[3]);
    }
    if is_for(m, "frequency"@) {
        announcement_for_row(node_id, dev_type, i, if clamp {
            3
        } else {
            5
        });
        sensor_fields(node_id, dev_type, sensors[4]);
    }
    if is_for(m, "power_factor"@) {
        announcement_for_row(node_id, dev_type, i, if clamp {
            4
        } else {
            6
        });
        sensor_fields(node_id, dev_type, sensors[5]);
    }
    if is_for(m, "temperature"@) {
        announcement_for_row(node_id, dev_type, i, if clamp {
            6
        } else {
            8
        });
        sensor_fields(node_id, dev_type, sensors[6]);
    }
}

/// The kinds of sensors other than energy.
proof fn classes_of_energy()
    ensures
        "voltage"@ != "energy"@,
        "current"@ != "energy"@,
        "power"@ != "energy"@,
        "frequency"@ != "energy"@,
        "power_factor"@ != "energy"@,
        "temperature"@ != "energy"@,
        "monetary"@ != "energy"@,
{
    reveal_strlit("energy");
    reveal_strlit("voltage");
    reveal_strlit("current");
    reveal_strlit("power");
    reveal_strlit("frequency");
    reveal_strlit("power_factor");
    reveal_strlit("temperature");
    reveal_strlit("monetary");
    assert("energy"@.len() == 6 && "voltage"@.len() == 7 && "current"@.len() == 7 && "power"@.len()
        == 5 && "frequency"@.len() == 9 && "power_factor"@.len() == 12 && "temperature"@.len() == 11
        && "monetary"@.len() == 8);
}

/// What is announced for the fields that only a plug meter has. The switch is set by the words
/// that it is shown with, under the topic of the node.
pub proof fn plug_fields_have_their_units(node_id: Seq<char>, i: int)
    requires
        0 <= i < announcements(node_id, DeviceType::At4pw).len(),
    ensures
        ({
            let m = announcements(node_id, DeviceType::At4pw)[i].1;
            &&& is_for(m, "session_energy"@) ==> describes(
                m,
                "Session Energy"@,
                "energy"@,
                "kWh"@,
            ) && counts_as(m, "total_increasing"@)
            &&& is_for(m, "cost"@) ==> describes(m, "Cost"@, "monetary"@, ""@) && counts_as(
                m,
                "measurement"@,
            )
            &&& is_for(m, "leakage_ma"@) ==> describes(
                m,
                "Leakage Current"@,
                "current"@,
                "mA"@,
            ) && counts_as(m, "measurement"@)
            &&& is_for(m, "switch"@) ==> get_in(m, "command_topic"@) == Some(
                JsonModel::Str("home/"@ + node_id + "/switch/set"@),
            ) && get_in(m, "payload_on"@) == Some(JsonModel::Str("ON"@)) && get_in(
                m,
                "payload_off"@,
            ) == Some(JsonModel::Str("OFF"@)) && get_in(m, "state_on"@) == Some(
                JsonModel::Str("ON"@),
            ) && get_in(m, "state_off"@) == Some(JsonModel::Str("OFF"@))
        }),
{
    let t = DeviceType::At4pw;
    let m = announcements(node_id, t)[i].1;
    let sensors = sensors_of(t);
    classes_of_energy();
    if is_for(m, "session_energy"@) {
        announcement_for_row(node_id, t, i, 4);
        sensor_fields(node_id, t, sensors[7]);
    }
    if is_for(m, "cost"@) {
        announcement_for_row(node_id, t, i, 7);
        sensor_fields(node_id, t, sensors[8]);
    }
    if is_for(m, "leakage_ma"@) {
        announcement_for_row(node_id, t, i, 9);
        sensor_fields(node_id, t, sensors[9]);
    }
    if is_for(m, "switch"@) {
        announcement_for_row(node_id, t, i, 10);
        switch_fields(node_id, t);
    }
}

fn push_text(fields: &mut Vec<(String, Json)>, key: &str, value: &str)
    ensures
        fields_of(final(fields)@) == fields_of(old(fields)@).push(
            (key@, JsonModel::Str(value@)),
        ),
{
    fields.push((key.to_string(), Json::text(value)));
    assert(fields_of(fields@) =~= fields_of(old(fields)@).push(
        (key@, JsonModel::Str(value@)),
    ));
}

fn device_json(node_id: &str, dev_type: DeviceType) -> (r: Json)
    ensures
        r@ == device_of(node_id@, dev_type),
{
    let mut ids: Vec<Json> = Vec::new();
    ids.push(Json::text(node_id));
    let identifiers = Json::Array(ids);
    assert(identifiers@->Array_0 =~= seq![JsonModel::Str(node_id@)]);
    let mut fields: Vec<(String, Json)> = Vec::new();
    fields.push(("identifiers".to_string(), identifiers));
    match dev_type {
        DeviceType::At4pw => {
            push_text(&mut fields, "name", "AT4P-W Power Meter");
            push_text(&mut fields, "model", "AT4P-W");
        },
        DeviceType::Ct => {
            push_text(&mut fields, "name", "SA1 CT Power Meter");
            push_text(&mut fields, "model", "SA1");
        },
    }
    push_text(&mut fields, "manufacturer", "Tuya");
    let r = Json::Object(fields);
    assert(r@->Object_0 =~= fields_of(fields@));
    assert(r@->Object_0 =~= device_of(node_id@, dev_type)->Object_0);
    r
}

fn sensor_json(node_id: &str, dev_type: DeviceType, sensor: Sensor) -> (r: Json)
    ensures
        r@ == sensor_config(node_id@, dev_type, sensor),
{
    let mut fields: Vec<(String, Json)> = Vec::new();
    assert(fields_of(fields@) =~= Seq::empty());
    push_text(&mut fields, "name", sensor.name);
    push_text(&mut fields, "device_class", sensor.dev_class);
    push_text(&mut fields, "state_topic", state_topic(node_id).as_str());
    push_text(&mut fields, "availability_topic", avail_topic(node_id).as_str());
    push_text(&mut fields, "unique_id", joined(node_id, "_", sensor.obj_id).as_str());
    let ghost before = fields_of(fields@);
    fields.push(("device".to_string(), device_json(node_id, dev_type)));
    assert(fields_of(fields@) =~= before.push(
        ("device"@, device_of(node_id@, dev_type)),
    ));
    push_text(
        &mut fields,
        "value_template",
        joined("{{ value_json.", sensor.field, " }}").as_str(),
    );
    if !same_text(sensor.unit, "") {
        push_text(&mut fields, "unit_of_measurement", sensor.unit);
    }
    if same_text(sensor.dev_class, "energy") {
        push_text(&mut fields, "state_class", "total_increasing");
    } else {
        push_text(&mut fields, "state_class", "measurement");
    }
    let r = Json::Object(fields);
    assert(r@->Object_0 =~= fields_of(fields@));
    assert(r@->Object_0 =~= sensor_config(node_id@, dev_type, sensor)->Object_0);
    r
}

fn switch_json(node_id: &str, dev_type: DeviceType) -> (r: Json)
    ensures
        r@ == switch_config(node_id@, dev_type),
{
    let mut fields: Vec<(String, Json)> = Vec::new();
    assert(fields_of(fields@) =~= Seq::empty());
    push_text(&mut fields, "name", "Switch");
    push_text(&mut fields, "device_class", "switch");
    push_text(&mut fields, "state_topic", state_topic(node_id).as_str());
    push_text(&mut fields, "command_topic", cmd_topic(node_id).as_str());
    push_text(&mut fields, "availability_topic", avail_topic(node_id).as_str());
    let mut unique_id = node_id.to_string();
    unique_id.append("_switch");
    push_text(&mut fields, "unique_id", unique_id.as_str());
    let ghost before = fields_of(fields@);
    fields.push(("device".to_string(), device_json(node_id, dev_type)));
    assert(fields_of(fields@) =~= before.push(
        ("device"@, device_of(node_id@, dev_type)),
    ));
    push_text(&mut fields, "value_template", "{{ value_json.switch }}");
    push_text(&mut fields, "payload_on", "ON");
    push_text(&mut fields, "payload_off", "OFF");
    push_text(&mut fields, "state_on", "ON");
    push_text(&mut fields, "state_off", "OFF");
    let r = Json::Object(fields);
    assert(r@->Object_0 =~= fields_of(fields@));
    assert(r@->Object_0 =~= switch_config(node_id@, dev_type)->Object_0);
    r
}

/// The views of announcements.
pub open spec fn configs_view(configs: Seq<(String, Json)>) -> Seq<(Seq<char>, JsonModel)> {
    fields_of(configs)
}

/// The announcements of a meter, each with its topic.
pub fn discovery_configs(node_id: &str, dev_type: DeviceType) -> (r: Vec<(String, Json)>)
    ensures
        configs_view(r@) == announcements(node_id@, dev_type),
{
    let all = sensors(dev_type);
    let mut configs: Vec<(String, Json)> = Vec::new();
    let mut i: usize = 0;
    while i < all.len()
        invariant
            i <= all@.len(),
            all@ == sensors_of(dev_type),
            configs@.len() == i,
            forall|k: int|
                0 <= k < i ==> (#[trigger] configs@[k]).0@ == sensor_topic_of(
                    node_id@,
                    all@[k].obj_id@,
                ),
            forall|k: int|
                0 <= k < i ==> (#[trigger] configs@[k]).1@ == sensor_config(
                    node_id@,
                    dev_type,
                    all@[k],
                ),
        decreases all@.len() - i,
    {
        let mut topic = joined("homeassistant/sensor/", node_id, "/");
        topic.append(all[i].obj_id);
        topic.append("/config");
        configs.push((topic, sensor_json(node_id, dev_type, all[i])));
        i = i + 1;
    }
    if dev_type == DeviceType::At4pw {
        let topic = joined("homeassistant/switch/", node_id, "/switch/config");
        configs.push((topic, switch_json(node_id, dev_type)));
    }
    assert(configs_view(configs@) =~= announcements(node_id@, dev_type));
    configs
}

} // verus!
