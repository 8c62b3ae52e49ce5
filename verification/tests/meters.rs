use tuya_meter::base64::{b64_decode, decode_phase_a, PhaseA};
use tuya_meter::config::DeviceType;
use tuya_meter::json::{parse_json, Json};
use tuya_meter::meter::{
    dps_to_state, get_number, log_line, print_meter, state_json, MeterLine, Reading, Rendered,
};

const PLUG: &str = "{\"20\":23010,\"18\":158,\"19\":3400,\"123\":12345,\"17\":67,\"133\":5000,\"134\":99,\"102\":250,\"135\":41,\"124\":2,\"1\":true}";
const CLAMP: &str = "{\"6\":\"CP0AAJ4AACI=\",\"32\":4998,\"50\":95,\"1\":1234,\"131\":305}";

fn shown(r: &Reading) -> String {
    match r {
        Reading::Scaled { number, divisor, decimals } => format!("{number}/{divisor}:{decimals}"),
        Reading::Whole(n) => format!("{n}"),
        Reading::Text(s) => format!("'{s}'"),
    }
}

fn state(text: &str, t: DeviceType) -> Vec<String> {
    dps_to_state(&parse_json(text).unwrap(), t)
        .iter()
        .map(|(k, r)| format!("{k}={}", shown(r)))
        .collect()
}

fn report(text: &str, t: DeviceType) -> Vec<String> {
    print_meter(&parse_json(text).unwrap(), t)
        .iter()
        .map(|l| match l {
            MeterLine::Title(s) => s.clone(),
            MeterLine::Value { label, reading, unit } => format!("{label}{}{unit}", shown(reading)),
        })
        .collect()
}

#[test]
fn base64_texts() {
    assert_eq!(b64_decode("aGVsbG8=").unwrap(), b"hello");
    assert_eq!(b64_decode("aGVsbG8").unwrap(), b"hello");
    assert_eq!(b64_decode("aGVsbA==").unwrap(), b"hell");
    assert_eq!(b64_decode("aGVs").unwrap(), b"hel");
    assert_eq!(b64_decode("+/+/").unwrap(), vec![0xfb, 0xff, 0xbf]);
    assert_eq!(b64_decode("").unwrap(), b"");
    assert_eq!(b64_decode("====").unwrap(), b"");
    assert_eq!(b64_decode("aGVsb").unwrap(), b"hel");
}

#[test]
fn base64_of_other_characters() {
    assert_eq!(b64_decode("\u{e9}abc"), None);
    assert!(b64_decode("!!!!").is_some());
}

#[test]
fn measurement_blocks() {
    assert_eq!(
        decode_phase_a("CP0AAJ4AACI="),
        Some(PhaseA { decivolts: 2301, milliamps: 158, watts: 34 })
    );
    assert_eq!(
        decode_phase_a("//////////8"),
        Some(PhaseA { decivolts: 65535, milliamps: 16777215, watts: 16777215 })
    );
    assert_eq!(decode_phase_a("CP0AAJ4AAA"), None);
    assert_eq!(decode_phase_a("CP0AAJ4AACIA\u{fc}\u{fc}"), None);
}

#[test]
fn the_state_of_a_plug_meter() {
    assert_eq!(
        state(PLUG, DeviceType::At4pw),
        vec![
            "voltage=23010/100:1",
            "current=158/1000:3",
            "power=3400/100:1",
            "energy=12345/100:2",
            "session_energy=67/100:2",
            "frequency=5000/100:2",
            "power_factor=99/100:2",
            "cost=250/100:2",
            "temperature=41",
            "leakage_ma=2",
            "switch='ON'",
        ]
    );
}

#[test]
fn the_state_of_a_clamp_meter() {
    assert_eq!(
        state(CLAMP, DeviceType::Ct),
        vec![
            "voltage='230.1'",
            "current='0.158'",
            "power='34'",
            "frequency=4998/100:2",
            "power_factor=95/100:2",
            "energy=1234/100:2",
            "temperature=305/10:1",
        ]
    );
}

#[test]
fn readings_that_are_missing_are_left_out() {
    assert_eq!(state("{\"20\":\"x\",\"1\":\"y\"}", DeviceType::At4pw), vec!["switch='OFF'"]);
    assert_eq!(state("{\"1\":false}", DeviceType::At4pw), vec!["switch='OFF'"]);
    assert_eq!(state("{\"6\":\"short\",\"1\":true}", DeviceType::Ct), Vec::<String>::new());
    assert_eq!(state("[]", DeviceType::At4pw), Vec::<String>::new());
}

#[test]
fn the_report_on_a_plug_meter() {
    assert_eq!(
        report(PLUG, DeviceType::At4pw),
        vec![
            "=== AT4P-W Power Meter ===",
            "  Voltage:        23010/100:1 V",
            "  Current:        158/1000:3 A",
            "  Power:          3400/100:1 W",
            "  Frequency:      5000/100:2 Hz",
            "  Power Factor:   99/100:2",
            "  Total Energy:   12345/100:2 kWh",
            "  Session Energy: 67/100:2 kWh",
            "  Cost:           250/100:2",
            "  CPU Temp:       41 C",
            "  Leakage:        2 mA",
            "  Switch:         'ON'",
        ]
    );
}

#[test]
fn the_report_on_a_clamp_meter() {
    assert_eq!(
        report(CLAMP, DeviceType::Ct),
        vec![
            "=== SA1 CT Power Meter ===",
            "  Voltage:        '230.1' V",
            "  Current:        '0.158' A",
            "  Power:          '34' W",
            "  Frequency:      4998/100:2 Hz",
            "  Power Factor:   95/100:2",
            "  Total Energy:   1234/100:2 kWh",
            "  Temperature:    305/10:1 C",
        ]
    );
}

#[test]
fn the_report_shows_what_the_state_holds() {
    for (text, t) in [(PLUG, DeviceType::At4pw), (CLAMP, DeviceType::Ct)] {
        let dps = parse_json(text).unwrap();
        let mut held: Vec<String> = dps_to_state(&dps, t).iter().map(|(_, r)| shown(r)).collect();
        let mut seen: Vec<String> = print_meter(&dps, t)
            .iter()
            .filter_map(|l| match l {
                MeterLine::Title(_) => None,
                MeterLine::Value { reading, .. } => Some(shown(reading)),
            })
            .collect();
        held.sort();
        seen.sort();
        assert_eq!(held, seen);
    }
}

#[test]
fn numbers_of_data_points() {
    let dps = parse_json("{\"20\":2.5,\"1\":true}").unwrap();
    assert_eq!(get_number(&dps, "20").unwrap().as_f64(), Some(2.5));
    assert!(get_number(&dps, "1").is_none());
    assert!(get_number(&dps, "2").is_none());
}

#[test]
fn lines_of_the_log() {
    let fields = vec![
        ("voltage".to_string(), Rendered::Text("230.1".to_string())),
        ("temperature".to_string(), Rendered::Whole(-4)),
    ];
    let state = state_json(&fields);
    assert_eq!(state.to_text(), "{\"voltage\":\"230.1\",\"temperature\":-4}");
    assert_eq!(
        log_line(1712678400, &state),
        "{\"t\":1712678400,\"data\":{\"voltage\":\"230.1\",\"temperature\":-4}}"
    );
    assert_eq!(log_line(0, &Json::Null), "{\"t\":0,\"data\":null}");
}
