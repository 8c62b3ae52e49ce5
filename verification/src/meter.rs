//! What the data points of a meter mean.
//!
//! Most data points are numbers that stand for a fraction: a voltage of 23010 with a divisor of
//! 100 is 230.1 V. Here it is decided which numbers are shown, under which name, with which
//! divisor and how many decimals. The division itself is left to whoever shows them.

use crate::base64::{decode_phase_a, phase_a_in, PhaseA};
use crate::config::DeviceType;
use crate::control::dp_list;
use crate::json::{
    distinct_values_are_settled, first_key, get_in, json_text, keys_differ, settled, whole_number,
    Fields, Json, JsonModel,
};
use crate::text::{
    all_digits, dec, dec_is_ascii, dec_padded, decimal, decimal_padded, decimals_grow_by_a_digit,
    digits_value, no_leading_zeros, one_more_digit, padded_digits_value, padded_to_width,
    positional, same_digits, three_more_digits, zeros,
};
use serde_json::Number;
use vstd::prelude::*;

verus! {

/// A value to show.
#[derive(Debug)]
pub enum Reading {
    /// The number divided by `divisor`, with a fixed number of decimals.
    Scaled { number: Number, divisor: u32, decimals: u8 },
    /// The number without its fraction.
    Whole(Number),
    /// A text.
    Text(String),
}

/// A [`Reading`] with its text taken by its view.
pub ghost enum Shown {
    Scaled { number: Number, divisor: u32, decimals: u8 },
    Whole(Number),
    Text(Seq<char>),
}

impl View for Reading {
    type V = Shown;

    open spec fn view(&self) -> Shown {
        match self {
            Reading::Scaled { number, divisor, decimals } => Shown::Scaled {
                number: *number,
                divisor: *divisor,
                decimals: *decimals,
            },
            Reading::Whole(number) => Shown::Whole(*number),
            Reading::Text(s) => Shown::Text(s@),
        }
    }
}

/// The number of a data point.
pub open spec fn number_in(dps: JsonModel, dp: Seq<char>) -> Option<Number> {
    match get_in(dps, dp) {
        Some(JsonModel::Number(n)) => Some(n),
        _ => None,
    }
}

/// The number of a data point.
pub fn get_number(dps: &Json, dp: &str) -> (r: Option<Number>)
    ensures
        r == number_in(dps@, dp@),
{
    match dps.get(dp) {
        Some(value) => match value.as_number() {
            Some(n) => Some(n.clone()),
            None => None,
        },
        None => None,
    }
}

/// The position of the switch, where the meter has one.
pub open spec fn switch_position(dps: JsonModel) -> Option<Shown> {
    match get_in(dps, "1"@) {
        Some(JsonModel::Bool(true)) => Some(Shown::Text("ON"@)),
        Some(_) => Some(Shown::Text("OFF"@)),
        None => None,
    }
}

/// Voltage, current and power of a clamp meter, where it sends them.
pub open spec fn phase_in(dps: JsonModel) -> Option<PhaseA> {
    match get_in(dps, "6"@) {
        Some(JsonModel::Str(text)) => phase_a_in(text),
        _ => None,
    }
}

/// A number of tenths, with one decimal.
pub open spec fn tenths(n: nat) -> Seq<char> {
    dec(n / 10) + "."@ + dec(n % 10)
}

/// A number of thousandths, with three decimals.
pub open spec fn thousandths(n: nat) -> Seq<char> {
    dec(n / 1000) + "."@ + dec_padded(n as int % 1000, 3)
}

/// Whether a text is a number with a fixed number of decimals: digits, a point, and exactly so
/// many digits behind it, which without the point make up `n`. No zero is put before the digits
/// but the one before the point.
pub open spec fn is_decimal(t: Seq<char>, n: nat, decimals: nat) -> bool {
    let k = t.len() - 1 - decimals;
    &&& k >= 1
    &&& t[k] == '.'
    &&& all_digits(t.take(k) + t.skip(k + 1))
    &&& digits_value(t.take(k) + t.skip(k + 1)) == n
    &&& t[0] == '0' ==> k == 1
}

/// A number of tenths has one digit behind its point, and is the number of which it is the tenth
/// part when the point is left out.
pub proof fn tenths_are_exact(n: nat)
    ensures
        is_decimal(tenths(n), n, 1),
{
    reveal_strlit(".");
    let (a, b) = (dec(n / 10), dec(n % 10));
    dec_is_ascii(n / 10);
    dec_is_ascii(n % 10);
    no_leading_zeros(n / 10);
    decimals_grow_by_a_digit(n % 10);
    padded_digits_value(0, n / 10);
    padded_digits_value(0, n % 10);
    assert(zeros(0) + a =~= a);
    assert(zeros(0) + b =~= b);
    let t = tenths(n);
    let k = a.len() as int;
    assert(t.take(k) =~= a);
    assert(t.skip(k + 1) =~= b);
    one_more_digit(a, b);
}

/// A number of thousandths has three digits behind its point, and is the number of which it is
/// the thousandth part when the point is left out.
pub proof fn thousandths_are_exact(n: nat)
    ensures
        is_decimal(thousandths(n), n, 3),
{
    reveal_strlit(".");
    let (a, b) = (dec(n / 1000), dec_padded(n as int % 1000, 3));
    dec_is_ascii(n / 1000);
    no_leading_zeros(n / 1000);
    padded_to_width(n as int % 1000, 3);
    padded_digits_value(0, n / 1000);
    assert(zeros(0) + a =~= a);
    let t = thousandths(n);
    let k = a.len() as int;
    assert(t.take(k) =~= a);
    assert(t.skip(k + 1) =~= b);
    three_more_digits(a, b);
}

/// Two texts with as many decimals for the same number are the same.
pub proof fn decimals_are_unique(s: Seq<char>, t: Seq<char>, n: nat, decimals: nat)
    requires
        is_decimal(s, n, decimals),
        is_decimal(t, n, decimals),
        s.len() == t.len(),
    ensures
        s == t,
{
    let k = s.len() - 1 - decimals;
    let (a, b) = (s.take(k) + s.skip(k + 1), t.take(k) + t.skip(k + 1));
    same_digits(a, b);
    assert forall|i: int| 0 <= i < s.len() implies s[i] == t[i] by {
        if i < k {
            assert(s[i] == a[i] && t[i] == b[i]);
        } else if i > k {
            assert(s[i] == a[i - 1] && t[i] == b[i - 1]);
        }
    }
    assert(s =~= t);
}

/// Where a reading comes from.
#[derive(Clone, Copy, Debug)]
pub enum Source {
    /// The number of a data point, with its divisor and its decimals.
    Scaled(&'static str, u32, u8),
    /// The number of a data point, without its fraction.
    Whole(&'static str),
    /// The switch of a plug meter.
    Switch,
    /// What a clamp meter measures on its phase.
    PhaseVoltage,
    PhaseCurrent,
    PhasePower,
}

/// The reading from a source, where the meter has sent it.
pub open spec fn reading_from(dps: JsonModel, source: Source) -> Option<Shown> {
    match source {
        Source::Scaled(dp, divisor, decimals) => match number_in(dps, dp@) {
            Some(number) => Some(Shown::Scaled { number, divisor, decimals }),
            None => None,
        },
        Source::Whole(dp) => match number_in(dps, dp@) {
            Some(number) => Some(Shown::Whole(number)),
            None => None,
        },
        Source::Switch => switch_position(dps),
        Source::PhaseVoltage => match phase_in(dps) {
            Some(p) => Some(Shown::Text(tenths(p.decivolts as nat))),
            None => None,
        },
        Source::PhaseCurrent => match phase_in(dps) {
            Some(p) => Some(Shown::Text(thousandths(p.milliamps as nat))),
            None => None,
        },
        Source::PhasePower => match phase_in(dps) {
            Some(p) => Some(Shown::Text(dec(p.watts as nat))),
            None => None,
        },
    }
}

fn tenths_text(n: u64) -> (r: String)
    ensures
        r@ == tenths(n as nat),
{
    let mut out = decimal(n / 10);
    out.append(".");
    out.append(decimal(n % 10).as_str());
    out
}

fn thousandths_text(n: u64) -> (r: String)
    ensures
        r@ == thousandths(n as nat),
{
    let mut out = decimal(n / 1000);
    out.append(".");
    out.append(decimal_padded((n % 1000) as i64, 3).as_str());
    out
}

fn read_switch(dps: &Json) -> (r: Option<Reading>)
    ensures
        reading_view(r) == switch_position(dps@),
{
    match dps.get("1") {
        Some(value) => match value.as_bool() {
            Some(true) => Some(Reading::Text("ON".to_string())),
            _ => Some(Reading::Text("OFF".to_string())),
        },
        None => None,
    }
}

fn read_phase(dps: &Json) -> (r: Option<PhaseA>)
    ensures
        r == phase_in(dps@),
{
    match dps.get("6") {
        Some(value) => match value.as_str() {
            Some(text) => decode_phase_a(text),
            None => None,
        },
        None => None,
    }
}

/// The view of an optional reading.
pub open spec fn reading_view(r: Option<Reading>) -> Option<Shown> {
    match r {
        Some(reading) => Some(reading@),
        None => None,
    }
}

/// Reads from a source.
pub fn read(dps: &Json, source: Source) -> (r: Option<Reading>)
    ensures
        reading_view(r) == reading_from(dps@, source),
{
    match source {
        Source::Scaled(dp, divisor, decimals) => match get_number(dps, dp) {
            Some(number) => Some(Reading::Scaled { number, divisor, decimals }),
            None => None,
        },
        Source::Whole(dp) => match get_number(dps, dp) {
            Some(number) => Some(Reading::Whole(number)),
            None => None,
        },
        Source::Switch => read_switch(dps),
        Source::PhaseVoltage => match read_phase(dps) {
            Some(p) => Some(Reading::Text(tenths_text(p.decivolts as u64))),
            None => None,
        },
        Source::PhaseCurrent => match read_phase(dps) {
            Some(p) => Some(Reading::Text(thousandths_text(p.milliamps as u64))),
            None => None,
        },
        Source::PhasePower => match read_phase(dps) {
            Some(p) => Some(Reading::Text(decimal(p.watts as u64))),
            None => None,
        },
    }
}

// ── The state that is published ──

/// The fields of the state of a meter, in their order.
pub open spec fn state_table(dev_type: DeviceType) -> Seq<(&'static str, Source)> {
    match dev_type {
        DeviceType::At4pw => seq![
            ("voltage", Source::Scaled("20", 100, 1)),
            ("current", Source::Scaled("18", 1000, 3)),
            ("power", Source::Scaled("19", 100, 1)),
            ("energy", Source::Scaled("123", 100, 2)),
            ("session_energy", Source::Scaled("17", 100, 2)),
            ("frequency", Source::Scaled("133", 100, 2)),
            ("power_factor", Source::Scaled("134", 100, 2)),
            ("cost", Source::Scaled("102", 100, 2)),
            ("temperature", Source::Whole("135")),
            ("leakage_ma", Source::Whole("124")),
            ("switch", Source::Switch),
        ],
        DeviceType::Ct => seq![
            ("voltage", Source::PhaseVoltage),
            ("current", Source::PhaseCurrent),
            ("power", Source::PhasePower),
            ("frequency", Source::Scaled("32", 100, 2)),
            ("power_factor", Source::Scaled("50", 100, 2)),
            ("energy", Source::Scaled("1", 100, 2)),
            ("temperature", Source::Scaled("131", 10, 1)),
        ],
    }
}

/// The fields of the state of a meter, in their order.
pub fn state_rows(dev_type: DeviceType) -> (r: Vec<(&'static str, Source)>)
    ensures
        r@ == state_table(dev_type),
{
    let rows: Vec<(&'static str, Source)> = match dev_type {
        DeviceType::At4pw => vec![
            ("voltage", Source::Scaled("20", 100, 1)),
            ("current", Source::Scaled("18", 1000, 3)),
            ("power", Source::Scaled("19", 100, 1)),
            ("energy", Source::Scaled("123", 100, 2)),
            ("session_energy", Source::Scaled("17", 100, 2)),
            ("frequency", Source::Scaled("133", 100, 2)),
            ("power_factor", Source::Scaled("134", 100, 2)),
            ("cost", Source::Scaled("102", 100, 2)),
            ("temperature", Source::Whole("135")),
            ("leakage_ma", Source::Whole("124")),
            ("switch", Source::Switch),
        ],
        DeviceType::Ct => vec![
            ("voltage", Source::PhaseVoltage),
            ("current", Source::PhaseCurrent),
            ("power", Source::PhasePower),
            ("frequency", Source::Scaled("32", 100, 2)),
            ("power_factor", Source::Scaled("50", 100, 2)),
            ("energy", Source::Scaled("1", 100, 2)),
            ("temperature", Source::Scaled("131", 10, 1)),
        ],
    };
    assert(rows@ =~= state_table(dev_type));
    rows
}

/// The fields for which there are readings.
pub open spec fn present(dps: JsonModel, rows: Seq<(&'static str, Source)>) -> Seq<
    (Seq<char>, Shown),
>
    decreases rows.len(),
{
    if rows.len() == 0 {
        Seq::empty()
    } else {
        let before = present(dps, rows.drop_last());
        match reading_from(dps, rows.last().1) {
            Some(shown) => before.push((rows.last().0@, shown)),
            None => before,
        }
    }
}

/// The state of a meter.
pub open spec fn state_of(dps: JsonModel, dev_type: DeviceType) -> Seq<(Seq<char>, Shown)> {
    present(dps, state_table(dev_type))
}

/// The views of the fields of a state.
pub open spec fn state_view(fields: Seq<(String, Reading)>) -> Seq<(Seq<char>, Shown)> {
    Seq::new(fields.len(), |i: int| (fields[i].0@, fields[i].1@))
}

/// Turns the data points of a meter into its state.
pub fn dps_to_state(dps: &Json, dev_type: DeviceType) -> (r: Vec<(String, Reading)>)
    ensures
        state_view(r@) == state_of(dps@, dev_type),
{
    let rows = state_rows(dev_type);
    let mut state: Vec<(String, Reading)> = Vec::new();
    let mut i: usize = 0;
    assert(state_view(state@) =~= present(dps@, rows@.take(0)));
    while i < rows.len()
        invariant
            i <= rows@.len(),
            state_view(state@) == present(dps@, rows@.take(i as int)),
        decreases rows@.len() - i,
    {
        let ghost before = state_view(state@);
        assert(rows@.take(i + 1).drop_last() =~= rows@.take(i as int));
        if let Some(value) = read(dps, rows[i].1) {
            let ghost shown = value@;
            state.push((rows[i].0.to_string(), value));
            assert(state_view(state@) =~= before.push((rows@[i as int].0@, shown)));
        }
        i = i + 1;
    }
    assert(rows@.take(rows@.len() as int) =~= rows@);
    state
}

/// A field that is present comes from a row with a reading.
pub proof fn present_comes_from(
    dps: JsonModel,
    rows: Seq<(&'static str, Source)>,
    i: int,
) -> (r: int)
    requires
        0 <= i < present(dps, rows).len(),
    ensures
        0 <= r < rows.len(),
        present(dps, rows)[i].0 == rows[r].0@,
        reading_from(dps, rows[r].1) == Some(present(dps, rows)[i].1),
    decreases rows.len(),
{
    let init = rows.drop_last();
    if i < present(dps, init).len() {
        let r = present_comes_from(dps, init, i);
        assert(rows[r] == init[r]);
        r
    } else {
        rows.len() - 1
    }
}

/// A row with a reading is present.
pub proof fn rows_are_present(dps: JsonModel, rows: Seq<(&'static str, Source)>, r: int) -> (i: int)
    requires
        0 <= r < rows.len(),
        reading_from(dps, rows[r].1) is Some,
    ensures
        0 <= i < present(dps, rows).len(),
        present(dps, rows)[i].0 == rows[r].0@,
        Some(present(dps, rows)[i].1) == reading_from(dps, rows[r].1),
    decreases rows.len(),
{
    let init = rows.drop_last();
    if r < init.len() {
        assert(init[r] == rows[r]);
        rows_are_present(dps, init, r)
    } else {
        present(dps, rows).len() - 1
    }
}

proof fn present_keys_differ(dps: JsonModel, rows: Seq<(&'static str, Source)>, i: int, j: int)
    requires
        0 <= i < j < present(dps, rows).len(),
        forall|p: int, q: int|
            0 <= p < q < rows.len() ==> (#[trigger] rows[p]).0@ != (#[trigger] rows[q]).0@,
    ensures
        present(dps, rows)[i].0 != present(dps, rows)[j].0,
    decreases rows.len(),
{
    let init = rows.drop_last();
    let before = present(dps, init);
    assert forall|p: int, q: int| 0 <= p < q < init.len() implies (#[trigger] init[p]).0@ != (
    #[trigger] init[q]).0@ by {
        assert(init[p] == rows[p] && init[q] == rows[q]);
    }
    if j < before.len() {
        present_keys_differ(dps, init, i, j);
    } else {
        let r = present_comes_from(dps, init, i);
        assert(init[r] == rows[r]);
        assert(rows[r].0@ != rows[rows.len() - 1].0@);
    }
}

/// The place of a key in the state of a meter.
spec fn key_rank(key: Seq<char>, dev_type: DeviceType) -> int {
    let clamp = dev_type == DeviceType::Ct;
    if key.len() == 7 && key[0] == 'v' {
        0
    } else if key.len() == 7 {
        1
    } else if key.len() == 5 {
        2
    } else if key.len() == 6 && key[0] == 'e' {
        if clamp {
            5
        } else {
            3
        }
    } else if key.len() == 14 {
        4
    } else if key.len() == 9 {
        if clamp {
            3
        } else {
            5
        }
    } else if key.len() == 12 {
        if clamp {
            4
        } else {
            6
        }
    } else if key.len() == 4 {
        7
    } else if key.len() == 11 {
        if clamp {
            6
        } else {
            8
        }
    } else if key.len() == 10 {
        9
    } else {
        10
    }
}

/// The fields that the state of a meter can have are named differently.
pub proof fn row_keys_differ(dev_type: DeviceType, p: int, q: int)
    requires
        0 <= p < state_table(dev_type).len(),
        0 <= q < state_table(dev_type).len(),
        state_table(dev_type)[p].0@ == state_table(dev_type)[q].0@,
    ensures
        p == q,
{
    reveal_strlit("voltage");
    reveal_strlit("current");
    reveal_strlit("power");
    reveal_strlit("energy");
    reveal_strlit("session_energy");
    reveal_strlit("frequency");
    reveal_strlit("power_factor");
    reveal_strlit("cost");
    reveal_strlit("temperature");
    reveal_strlit("leakage_ma");
    reveal_strlit("switch");
    assert(key_rank(state_table(dev_type)[p].0@, dev_type) == p);
    assert(key_rank(state_table(dev_type)[q].0@, dev_type) == q);
}

/// No field of a state occurs twice.
pub proof fn state_keys_differ(dps: JsonModel, dev_type: DeviceType, i: int, j: int)
    requires
        0 <= i < j < state_of(dps, dev_type).len(),
    ensures
        state_of(dps, dev_type)[i].0 != state_of(dps, dev_type)[j].0,
{
    let rows = state_table(dev_type);
    assert forall|p: int, q: int| 0 <= p < q < rows.len() implies (#[trigger] rows[p]).0@ != (
    #[trigger] rows[q]).0@ by {
        if rows[p].0@ == rows[q].0@ {
            row_keys_differ(dev_type, p, q);
        }
    }
    present_keys_differ(dps, rows, i, j);
}

/// Whether a state has a field with a value.
pub open spec fn state_has(state: Seq<(Seq<char>, Shown)>, key: Seq<char>, v: Shown) -> bool {
    exists|i: int| 0 <= i < state.len() && #[trigger] state[i] == (key, v)
}

/// A field stands in a state exactly where its source has given its value.
proof fn fields_come_from_their_row(dps: JsonModel, dev_type: DeviceType, r: int, v: Shown)
    requires
        0 <= r < state_table(dev_type).len(),
    ensures
        state_has(state_of(dps, dev_type), state_table(dev_type)[r].0@, v) <==> reading_from(
            dps,
            state_table(dev_type)[r].1,
        ) == Some(v),
{
    let rows = state_table(dev_type);
    let state = state_of(dps, dev_type);
    if state_has(state, rows[r].0@, v) {
        let i = choose|i: int| 0 <= i < state.len() && #[trigger] state[i] == (rows[r].0@, v);
        let q = present_comes_from(dps, rows, i);
        row_keys_differ(dev_type, q, r);
    }
    if reading_from(dps, rows[r].1) == Some(v) {
        let i = rows_are_present(dps, rows, r);
        assert(state[i] == (rows[r].0@, v));
    }
}

/// Whether a value is the number of a data point, with its divisor and its decimals.
pub open spec fn is_scaled(v: Shown, dps: JsonModel, dp: Seq<char>, divisor: u32, decimals: u8) -> bool {
    v matches Shown::Scaled { number, divisor: by, decimals: places } && by == divisor && places
        == decimals && get_in(dps, dp) == Some(JsonModel::Number(number))
}

/// Whether a value is the number of a data point as it is.
pub open spec fn is_whole(v: Shown, dps: JsonModel, dp: Seq<char>) -> bool {
    v matches Shown::Whole(number) && get_in(dps, dp) == Some(JsonModel::Number(number))
}

/// The state of a plug meter: which data point each field shows, what it is divided by and with
/// how many decimals, for all that a meter can send. A field is there exactly where its data point
/// is a number; the switch is on where its data point is true, off where it is anything else.
pub proof fn plug_meters_show_their_data_points(dps: JsonModel, v: Shown)
    ensures
        ({
            let s = state_of(dps, DeviceType::At4pw);
            &&& state_has(s, "voltage"@, v) <==> is_scaled(v, dps, "20"@, 100, 1)
            &&& state_has(s, "current"@, v) <==> is_scaled(v, dps, "18"@, 1000, 3)
            &&& state_has(s, "power"@, v) <==> is_scaled(v, dps, "19"@, 100, 1)
            &&& state_has(s, "energy"@, v) <==> is_scaled(v, dps, "123"@, 100, 2)
            &&& state_has(s, "session_energy"@, v) <==> is_scaled(v, dps, "17"@, 100, 2)
            &&& state_has(s, "frequency"@, v) <==> is_scaled(v, dps, "133"@, 100, 2)
            &&& state_has(s, "power_factor"@, v) <==> is_scaled(v, dps, "134"@, 100, 2)
            &&& state_has(s, "cost"@, v) <==> is_scaled(v, dps, "102"@, 100, 2)
            &&& state_has(s, "temperature"@, v) <==> is_whole(v, dps, "135"@)
            &&& state_has(s, "leakage_ma"@, v) <==> is_whole(v, dps, "124"@)
            &&& state_has(s, "switch"@, v) <==> (match get_in(dps, "1"@) {
                None => false,
                Some(p) => v == Shown::Text(
                    if p == JsonModel::Bool(true) {
                        "ON"@
                    } else {
                        "OFF"@
                    },
                ),
            })
        }),
{
    let t = DeviceType::At4pw;
    fields_come_from_their_row(dps, t, 0, v);
    fields_come_from_their_row(dps, t, 1, v);
    fields_come_from_their_row(dps, t, 2, v);
    fields_come_from_their_row(dps, t, 3, v);
    fields_come_from_their_row(dps, t, 4, v);
    fields_come_from_their_row(dps, t, 5, v);
    fields_come_from_their_row(dps, t, 6, v);
    fields_come_from_their_row(dps, t, 7, v);
    fields_come_from_their_row(dps, t, 8, v);
    fields_come_from_their_row(dps, t, 9, v);
    fields_come_from_their_row(dps, t, 10, v);
}

/// Whether a meter has sent a measurement block.
pub open spec fn has_block(dps: JsonModel, p: PhaseA) -> bool {
    get_in(dps, "6"@) matches Some(JsonModel::Str(text)) && phase_a_in(text) == Some(p)
}

/// The state of a clamp meter: voltage, current and power are those of its measurement block, in
/// volts with one decimal, amperes with three, and watts; the other fields show data points. There
/// is no switch.
pub proof fn clamp_meters_show_their_block(dps: JsonModel, v: Shown, p: PhaseA)
    ensures
        ({
            let s = state_of(dps, DeviceType::Ct);
            &&& has_block(dps, p) && state_has(s, "voltage"@, v) ==> (v matches Shown::Text(t)
                && is_decimal(t, p.decivolts as nat, 1))
            &&& has_block(dps, p) && state_has(s, "current"@, v) ==> (v matches Shown::Text(t)
                && is_decimal(t, p.milliamps as nat, 3))
            &&& has_block(dps, p) && state_has(s, "power"@, v) ==> v == Shown::Text(
                dec(p.watts as nat),
            )
            &&& has_block(dps, p) ==> (exists|w: Shown| #[trigger] state_has(s, "voltage"@, w)) && (
            exists|w: Shown| #[trigger] state_has(s, "current"@, w)) && (exists|w: Shown| #[trigger]
                state_has(s, "power"@, w))
            &&& state_has(s, "voltage"@, v) || state_has(s, "current"@, v) || state_has(
                s,
                "power"@,
                v,
            ) ==> exists|q: PhaseA| #[trigger] has_block(dps, q)
            &&& state_has(s, "frequency"@, v) <==> is_scaled(v, dps, "32"@, 100, 2)
            &&& state_has(s, "power_factor"@, v) <==> is_scaled(v, dps, "50"@, 100, 2)
            &&& state_has(s, "energy"@, v) <==> is_scaled(v, dps, "1"@, 100, 2)
            &&& state_has(s, "temperature"@, v) <==> is_scaled(v, dps, "131"@, 10, 1)
            &&& !state_has(s, "switch"@, v)
        }),
{
    let t = DeviceType::Ct;
    let s = state_of(dps, t);
    fields_come_from_their_row(dps, t, 0, v);
    fields_come_from_their_row(dps, t, 1, v);
    fields_come_from_their_row(dps, t, 2, v);
    fields_come_from_their_row(dps, t, 3, v);
    fields_come_from_their_row(dps, t, 4, v);
    fields_come_from_their_row(dps, t, 5, v);
    fields_come_from_their_row(dps, t, 6, v);
    if has_block(dps, p) {
        tenths_are_exact(p.decivolts as nat);
        thousandths_are_exact(p.milliamps as nat);
        let a = rows_are_present(dps, state_table(t), 0);
        let b = rows_are_present(dps, state_table(t), 1);
        let c = rows_are_present(dps, state_table(t), 2);
        assert(s[a] == ("voltage"@, s[a].1) && state_has(s, "voltage"@, s[a].1));
        assert(s[b] == ("current"@, s[b].1) && state_has(s, "current"@, s[b].1));
        assert(s[c] == ("power"@, s[c].1) && state_has(s, "power"@, s[c].1));
    }
    if let Some(q) = phase_in(dps) {
        assert(has_block(dps, q));
    }
    if state_has(s, "switch"@, v) {
        let i = choose|i: int| 0 <= i < s.len() && #[trigger] s[i] == ("switch"@, v);
        let r = present_comes_from(dps, state_table(t), i);
        clamp_rows_are_no_switch(r);
    }
}

proof fn clamp_rows_are_no_switch(r: int)
    requires
        0 <= r < state_table(DeviceType::Ct).len(),
    ensures
        state_table(DeviceType::Ct)[r].0@ != "switch"@,
{
    reveal_strlit("voltage");
    reveal_strlit("current");
    reveal_strlit("power");
    reveal_strlit("energy");
    reveal_strlit("frequency");
    reveal_strlit("power_factor");
    reveal_strlit("temperature");
    reveal_strlit("switch");
    assert(key_rank(state_table(DeviceType::Ct)[r].0@, DeviceType::Ct) == r);
    assert(key_rank("switch"@, DeviceType::Ct) == 10);
}

/// Whether a data point is among those that an update asks for.
pub open spec fn is_asked_for(dp: Seq<char>) -> bool {
    exists|i: int| 0 <= i < dp_list().len() && dp == dec((#[trigger] dp_list()[i]) as nat)
}

/// Every data point that a state shows is among those that an update asks for.
pub proof fn updates_ask_for_what_is_shown(dev_type: DeviceType, r: int)
    requires
        0 <= r < state_table(dev_type).len(),
    ensures
        match state_table(dev_type)[r].1 {
            Source::Scaled(dp, _, _) => is_asked_for(dp@),
            Source::Whole(dp) => is_asked_for(dp@),
            Source::Switch => is_asked_for("1"@),
            _ => is_asked_for("6"@),
        },
{
    reveal_strlit("1");
    reveal_strlit("6");
    reveal_strlit("17");
    reveal_strlit("18");
    reveal_strlit("19");
    reveal_strlit("20");
    reveal_strlit("32");
    reveal_strlit("50");
    reveal_strlit("102");
    reveal_strlit("123");
    reveal_strlit("124");
    reveal_strlit("131");
    reveal_strlit("133");
    reveal_strlit("134");
    reveal_strlit("135");
    reveal_with_fuel(positional, 3);
    let l = dp_list();
    assert(dec(l[0] as nat) =~= "1"@);
    assert(dec(l[1] as nat) =~= "6"@);
    assert(dec(l[7] as nat) =~= "17"@);
    assert(dec(l[8] as nat) =~= "18"@);
    assert(dec(l[9] as nat) =~= "19"@);
    assert(dec(l[10] as nat) =~= "20"@);
    assert(dec(l[11] as nat) =~= "32"@);
    assert(dec(l[12] as nat) =~= "50"@);
    assert(dec(l[14] as nat) =~= "102"@);
    assert(dec(l[35] as nat) =~= "123"@);
    assert(dec(l[36] as nat) =~= "124"@);
    assert(dec(l[39] as nat) =~= "131"@);
    assert(dec(l[41] as nat) =~= "133"@);
    assert(dec(l[42] as nat) =~= "134"@);
    assert(dec(l[43] as nat) =~= "135"@);
}

/// A reading as it is shown.
#[derive(Debug)]
pub enum Rendered {
    Text(String),
    Whole(i64),
}

/// The value of a shown reading.
pub open spec fn rendered_value(r: Rendered) -> JsonModel {
    match r {
        Rendered::Text(s) => JsonModel::Str(s@),
        Rendered::Whole(n) => JsonModel::Number(whole_number(n as int)),
    }
}

/// A shown reading is written as it is: a text as a text, a number as that number.
pub proof fn shown_readings_are_kept(text: String, n: i64, fields: Seq<(String, Rendered)>, i: int)
    requires
        0 <= i < fields.len(),
    ensures
        rendered_value(Rendered::Text(text)) == JsonModel::Str(text@),
        rendered_value(Rendered::Whole(n)) == JsonModel::Number(whole_number(n as int)),
        rendered_fields(fields).len() == fields.len(),
        rendered_fields(fields)[i] == (fields[i].0@, rendered_value(fields[i].1)),
{
}

/// The fields of a shown state.
pub open spec fn rendered_fields(fields: Seq<(String, Rendered)>) -> Fields {
    Seq::new(fields.len(), |i: int| (fields[i].0@, rendered_value(fields[i].1)))
}

/// A state that is shown field by field is written as it is.
pub proof fn states_are_settled(
    dps: JsonModel,
    dev_type: DeviceType,
    fields: Seq<(String, Rendered)>,
)
    requires
        fields.len() == state_of(dps, dev_type).len(),
        forall|i: int|
            0 <= i < fields.len() ==> (#[trigger] fields[i]).0@ == state_of(dps, dev_type)[i].0,
    ensures
        settled(JsonModel::Object(rendered_fields(fields))) == JsonModel::Object(
            rendered_fields(fields),
        ),
{
    let all = rendered_fields(fields);
    assert forall|i: int, j: int| 0 <= i < j < all.len() implies (#[trigger] all[i]).0 != (
    #[trigger] all[j]).0 by {
        state_keys_differ(dps, dev_type, i, j);
        assert(all[i].0 == fields[i].0@ && all[j].0 == fields[j].0@);
    }
    assert forall|i: int| 0 <= i < all.len() implies keys_differ((#[trigger] all[i]).1) by {}
    distinct_values_are_settled(JsonModel::Object(all));
}

/// The object for a shown state.
pub fn state_json(fields: &Vec<(String, Rendered)>) -> (r: Json)
    ensures
        r@ == JsonModel::Object(rendered_fields(fields@)),
{
    let mut out: Vec<(String, Json)> = Vec::new();
    let mut i: usize = 0;
    while i < fields.len()
        invariant
            i <= fields@.len(),
            out@.len() == i,
            forall|k: int| 0 <= k < i ==> (#[trigger] out@[k]).0@ == fields@[k].0@,
            forall|k: int| 0 <= k < i ==> (#[trigger] out@[k]).1@ == rendered_value(fields@[k].1),
        decreases fields@.len() - i,
    {
        let value = match &fields[i].1 {
            Rendered::Text(s) => Json::text(s.as_str()),
            Rendered::Whole(n) => Json::whole(*n as i128),
        };
        out.push((fields[i].0.clone(), value));
        i = i + 1;
    }
    let r = Json::Object(out);
    assert(r@->Object_0 =~= rendered_fields(fields@));
    r
}

/// The object for a line of the log.
pub open spec fn log_entry(now_secs: u64, state: JsonModel) -> JsonModel {
    JsonModel::Object(
        seq![("t"@, JsonModel::Number(whole_number(now_secs as int))), ("data"@, state)],
    )
}

/// No key occurs twice in a line of the log, unless one does in the state, so that the line is
/// written as it is.
pub proof fn log_entries_are_settled(now_secs: u64, state: JsonModel)
    requires
        keys_differ(state),
    ensures
        settled(log_entry(now_secs, state)) == log_entry(now_secs, state),
{
    reveal_strlit("t");
    reveal_strlit("data");
    let whole = log_entry(now_secs, state);
    let fields = whole->Object_0;
    assert(fields[0].0.len() == 1 && fields[1].0.len() == 4);
    assert(keys_differ(fields[0].1) && keys_differ(fields[1].1));
    assert(keys_differ(whole));
    distinct_values_are_settled(whole);
}

/// A line of the log holds its moment under `t`, before the state under `data`.
pub proof fn log_entries_hold_moment_and_state(now_secs: u64, state: JsonModel)
    ensures
        get_in(log_entry(now_secs, state), "t"@) == Some(
            JsonModel::Number(whole_number(now_secs as int)),
        ),
        get_in(log_entry(now_secs, state), "data"@) == Some(state),
        log_entry(now_secs, state) matches JsonModel::Object(fields) && fields.len() == 2
            && fields[0].0 == "t"@,
{
    reveal_strlit("t");
    reveal_strlit("data");
    let fields = log_entry(now_secs, state)->Object_0;
    assert(fields[0].0.len() == 1 && fields[1].0.len() == 4);
    first_key(fields, "t"@, 0);
    first_key(fields, "data"@, 1);
}

/// The line of the log for a state.
pub fn log_line(now_secs: u64, state: &Json) -> (r: String)
    ensures
        r@ == json_text(settled(log_entry(now_secs, state@))),
{
    let mut fields: Vec<(String, Json)> = Vec::new();
    fields.push(("t".to_string(), Json::whole(now_secs as i128)));
    fields.push(("data".to_string(), state.duplicate()));
    let line = Json::Object(fields);
    assert(line@->Object_0 =~= log_entry(now_secs, state@)->Object_0);
    line.to_text()
}

// ── The report that is printed ──

/// A line of the report.
#[derive(Debug)]
pub enum MeterLine {
    Title(String),
    Value { label: String, reading: Reading, unit: String },
}

/// A [`MeterLine`] with its texts taken by their view.
pub ghost enum ReportLine {
    Title(Seq<char>),
    Value { label: Seq<char>, reading: Shown, unit: Seq<char> },
}

impl View for MeterLine {
    type V = ReportLine;

    open spec fn view(&self) -> ReportLine {
        match self {
            MeterLine::Title(s) => ReportLine::Title(s@),
            MeterLine::Value { label, reading, unit } => ReportLine::Value {
                label: label@,
                reading: reading@,
                unit: unit@,
            },
        }
    }
}

/// The views of the lines of a report.
pub open spec fn report_view(lines: Seq<MeterLine>) -> Seq<ReportLine> {
    Seq::new(lines.len(), |i: int| lines[i]@)
}

/// The lines of the report on a meter, in their order: label, source and unit.
pub open spec fn report_table(dev_type: DeviceType) -> Seq<(&'static str, Source, &'static str)> {
    match dev_type {
        DeviceType::At4pw => seq![
            ("  Voltage:        ", Source::Scaled("20", 100, 1), " V"),
            ("  Current:        ", Source::Scaled("18", 1000, 3), " A"),
            ("  Power:          ", Source::Scaled("19", 100, 1), " W"),
            ("  Frequency:      ", Source::Scaled("133", 100, 2), " Hz"),
            ("  Power Factor:   ", Source::Scaled("134", 100, 2), ""),
            ("  Total Energy:   ", Source::Scaled("123", 100, 2), " kWh"),
            ("  Session Energy: ", Source::Scaled("17", 100, 2), " kWh"),
            ("  Cost:           ", Source::Scaled("102", 100, 2), ""),
            ("  CPU Temp:       ", Source::Whole("135"), " C"),
            ("  Leakage:        ", Source::Whole("124"), " mA"),
            ("  Switch:         ", Source::Switch, ""),
        ],
        DeviceType::Ct => seq![
            ("  Voltage:        ", Source::PhaseVoltage, " V"),
            ("  Current:        ", Source::PhaseCurrent, " A"),
            ("  Power:          ", Source::PhasePower, " W"),
            ("  Frequency:      ", Source::Scaled("32", 100, 2), " Hz"),
            ("  Power Factor:   ", Source::Scaled("50", 100, 2), ""),
            ("  Total Energy:   ", Source::Scaled("1", 100, 2), " kWh"),
            ("  Temperature:    ", Source::Scaled("131", 10, 1), " C"),
        ],
    }
}

/// The lines of the report on a meter, in their order.
pub fn report_rows(dev_type: DeviceType) -> (r: Vec<(&'static str, Source, &'static str)>)
    ensures
        r@ == report_table(dev_type),
{
    let rows: Vec<(&'static str, Source, &'static str)> = match dev_type {
        DeviceType::At4pw => vec![
            ("  Voltage:        ", Source::Scaled("20", 100, 1), " V"),
            ("  Current:        ", Source::Scaled("18", 1000, 3), " A"),
            ("  Power:          ", Source::Scaled("19", 100, 1), " W"),
            ("  Frequency:      ", Source::Scaled("133", 100, 2), " Hz"),
            ("  Power Factor:   ", Source::Scaled("134", 100, 2), ""),
            ("  Total Energy:   ", Source::Scaled("123", 100, 2), " kWh"),
            ("  Session Energy: ", Source::Scaled("17", 100, 2), " kWh"),
            ("  Cost:           ", Source::Scaled("102", 100, 2), ""),
            ("  CPU Temp:       ", Source::Whole("135"), " C"),
            ("  Leakage:        ", Source::Whole("124"), " mA"),
            ("  Switch:         ", Source::Switch, ""),
        ],
        DeviceType::Ct => vec![
            ("  Voltage:        ", Source::PhaseVoltage, " V"),
            ("  Current:        ", Source::PhaseCurrent, " A"),
            ("  Power:          ", Source::PhasePower, " W"),
            ("  Frequency:      ", Source::Scaled("32", 100, 2), " Hz"),
            ("  Power Factor:   ", Source::Scaled("50", 100, 2), ""),
            ("  Total Energy:   ", Source::Scaled("1", 100, 2), " kWh"),
            ("  Temperature:    ", Source::Scaled("131", 10, 1), " C"),
        ],
    };
    assert(rows@ =~= report_table(dev_type));
    rows
}

/// The title of the report on a meter.
pub open spec fn title_of(dev_type: DeviceType) -> Seq<char> {
    match dev_type {
        DeviceType::At4pw => "=== AT4P-W Power Meter ==="@,
        DeviceType::Ct => "=== SA1 CT Power Meter ==="@,
    }
}

/// A title, and the lines for which there are readings.
pub open spec fn report_lines(
    dps: JsonModel,
    title: Seq<char>,
    rows: Seq<(&'static str, Source, &'static str)>,
) -> Seq<ReportLine>
    decreases rows.len(),
{
    if rows.len() == 0 {
        seq![ReportLine::Title(title)]
    } else {
        let before = report_lines(dps, title, rows.drop_last());
        let (label, source, unit) = rows.last();
        match reading_from(dps, source) {
            Some(reading) => before.push(
                ReportLine::Value { label: label@, reading, unit: unit@ },
            ),
            None => before,
        }
    }
}

/// The report on a meter.
pub open spec fn report_of(dps: JsonModel, dev_type: DeviceType) -> Seq<ReportLine> {
    report_lines(dps, title_of(dev_type), report_table(dev_type))
}

/// The lines of the report on a meter.
pub fn print_meter(dps: &Json, dev_type: DeviceType) -> (r: Vec<MeterLine>)
    ensures
        report_view(r@) == report_of(dps@, dev_type),
{
    let rows = report_rows(dev_type);
    let title = match dev_type {
        DeviceType::At4pw => "=== AT4P-W Power Meter ===",
        DeviceType::Ct => "=== SA1 CT Power Meter ===",
    };
    let mut report: Vec<MeterLine> = Vec::new();
    report.push(MeterLine::Title(title.to_string()));
    let mut i: usize = 0;
    assert(report_view(report@) =~= report_lines(dps@, title@, rows@.take(0)));
    while i < rows.len()
        invariant
            i <= rows@.len(),
            report_view(report@) == report_lines(dps@, title@, rows@.take(i as int)),
        decreases rows@.len() - i,
    {
        let ghost before = report_view(report@);
        assert(rows@.take(i + 1).drop_last() =~= rows@.take(i as int));
        let (label, source, unit) = rows[i];
        if let Some(reading) = read(dps, source) {
            let line = MeterLine::Value {
                label: label.to_string(),
                reading,
                unit: unit.to_string(),
            };
            let ghost shown = line@;
            report.push(line);
            assert(report_view(report@) =~= before.push(shown));
        }
        i = i + 1;
    }
    assert(rows@.take(rows@.len() as int) =~= rows@);
    report
}

// ── State and report ──

/// Whether a state holds a value.
pub open spec fn state_holds(state: Seq<(Seq<char>, Shown)>, v: Shown) -> bool {
    exists|i: int| 0 <= i < state.len() && (#[trigger] state[i]).1 == v
}

/// Whether a line shows a value.
pub open spec fn line_shows(l: ReportLine, v: Shown) -> bool {
    l matches ReportLine::Value { reading, .. } && reading == v
}

/// Whether a report shows a value.
pub open spec fn report_shows(report: Seq<ReportLine>, v: Shown) -> bool {
    exists|i: int| 0 <= i < report.len() && line_shows(#[trigger] report[i], v)
}

proof fn line_comes_from(
    dps: JsonModel,
    title: Seq<char>,
    rows: Seq<(&'static str, Source, &'static str)>,
    i: int,
    v: Shown,
) -> (r: int)
    requires
        0 <= i < report_lines(dps, title, rows).len(),
        line_shows(report_lines(dps, title, rows)[i], v),
    ensures
        0 <= r < rows.len(),
        reading_from(dps, rows[r].1) == Some(v),
    decreases rows.len(),
{
    let init = rows.drop_last();
    if rows.len() > 0 && i < report_lines(dps, title, init).len() {
        let r = line_comes_from(dps, title, init, i, v);
        assert(rows[r] == init[r]);
        r
    } else {
        rows.len() - 1
    }
}

proof fn lines_are_shown(
    dps: JsonModel,
    title: Seq<char>,
    rows: Seq<(&'static str, Source, &'static str)>,
    r: int,
    v: Shown,
)
    requires
        0 <= r < rows.len(),
        reading_from(dps, rows[r].1) == Some(v),
    ensures
        report_shows(report_lines(dps, title, rows), v),
    decreases rows.len(),
{
    let init = rows.drop_last();
    let before = report_lines(dps, title, init);
    let all = report_lines(dps, title, rows);
    if r < init.len() {
        assert(init[r] == rows[r]);
        lines_are_shown(dps, title, init, r, v);
        let i = choose|i: int| 0 <= i < before.len() && line_shows(#[trigger] before[i], v);
        assert(line_shows(all[i], v));
    } else {
        assert(line_shows(all[all.len() - 1], v));
    }
}

/// The row of the report with the source of a row of the state, and the other way round.
spec fn partner(dev_type: DeviceType, r: int) -> int {
    if dev_type == DeviceType::At4pw && 3 <= r <= 4 {
        r + 2
    } else if dev_type == DeviceType::At4pw && 5 <= r <= 6 {
        r - 2
    } else {
        r
    }
}

/// Whether a report has a line with a label, a value and a unit.
pub open spec fn report_has(
    report: Seq<ReportLine>,
    label: Seq<char>,
    reading: Shown,
    unit: Seq<char>,
) -> bool {
    exists|i: int|
        0 <= i < report.len() && #[trigger] report[i] == (ReportLine::Value {
            label,
            reading,
            unit,
        })
}

proof fn rows_have_their_line(
    dps: JsonModel,
    title: Seq<char>,
    rows: Seq<(&'static str, Source, &'static str)>,
    r: int,
    v: Shown,
)
    requires
        0 <= r < rows.len(),
        reading_from(dps, rows[r].1) == Some(v),
    ensures
        report_has(report_lines(dps, title, rows), rows[r].0@, v, rows[r].2@),
    decreases rows.len(),
{
    let init = rows.drop_last();
    let before = report_lines(dps, title, init);
    let all = report_lines(dps, title, rows);
    let line = ReportLine::Value { label: rows[r].0@, reading: v, unit: rows[r].2@ };
    if r < init.len() {
        assert(init[r] == rows[r]);
        rows_have_their_line(dps, title, init, r, v);
        let i = choose|i: int| 0 <= i < before.len() && #[trigger] before[i] == line;
        assert(all[i] == line);
    } else {
        assert(all[all.len() - 1] == line);
    }
}

proof fn lines_have_their_row(
    dps: JsonModel,
    title: Seq<char>,
    rows: Seq<(&'static str, Source, &'static str)>,
    i: int,
) -> (r: int)
    requires
        0 < i < report_lines(dps, title, rows).len(),
    ensures
        0 <= r < rows.len(),
        reading_from(dps, rows[r].1) is Some,
        report_lines(dps, title, rows)[i] == (ReportLine::Value {
            label: rows[r].0@,
            reading: reading_from(dps, rows[r].1)->0,
            unit: rows[r].2@,
        }),
    decreases rows.len(),
{
    let init = rows.drop_last();
    title_comes_first(dps, title, init);
    if rows.len() > 0 && i < report_lines(dps, title, init).len() {
        let r = lines_have_their_row(dps, title, init, i);
        assert(rows[r] == init[r]);
        r
    } else {
        rows.len() - 1
    }
}

proof fn title_comes_first(
    dps: JsonModel,
    title: Seq<char>,
    rows: Seq<(&'static str, Source, &'static str)>,
)
    ensures
        report_lines(dps, title, rows).len() >= 1,
        report_lines(dps, title, rows)[0] == ReportLine::Title(title),
    decreases rows.len(),
{
    if rows.len() > 0 {
        title_comes_first(dps, title, rows.drop_last());
    }
}

/// A report starts with a title that names the meter. Every reading that is there has its line,
/// with the label and the unit that belong to it, and no other line follows.
pub proof fn reports_label_their_readings(dps: JsonModel, dev_type: DeviceType, r: int, i: int)
    requires
        0 <= r < report_table(dev_type).len(),
    ensures
        ({
            let report = report_of(dps, dev_type);
            let rows = report_table(dev_type);
            &&& report.len() >= 1
            &&& report[0] == ReportLine::Title(
                if dev_type == DeviceType::Ct {
                    "=== SA1 CT Power Meter ==="@
                } else {
                    "=== AT4P-W Power Meter ==="@
                },
            )
            &&& reading_from(dps, rows[r].1) matches Some(v) ==> report_has(
                report,
                rows[r].0@,
                v,
                rows[r].2@,
            )
            &&& 0 < i < report.len() ==> exists|k: int|
                0 <= k < rows.len() && reading_from(dps, (#[trigger] rows[k]).1) is Some && report[i]
                    == (ReportLine::Value {
                    label: rows[k].0@,
                    reading: reading_from(dps, rows[k].1)->0,
                    unit: rows[k].2@,
                })
        }),
{
    let title = title_of(dev_type);
    let rows = report_table(dev_type);
    title_comes_first(dps, title, rows);
    if let Some(v) = reading_from(dps, rows[r].1) {
        rows_have_their_line(dps, title, rows, r, v);
    }
    if 0 < i < report_of(dps, dev_type).len() {
        let k = lines_have_their_row(dps, title, rows, i);
        assert(reading_from(dps, rows[k].1) is Some);
    }
}

/// What the lines of the report on a plug meter show: under each label the field of the state that
/// belongs to it, with its unit.
pub proof fn plug_reports_show_the_state(dps: JsonModel, v: Shown)
    ensures
        ({
            let s = state_of(dps, DeviceType::At4pw);
            let r = report_of(dps, DeviceType::At4pw);
            &&& state_has(s, "voltage"@, v) ==> report_has(r, "  Voltage:        "@, v, " V"@)
            &&& state_has(s, "current"@, v) ==> report_has(r, "  Current:        "@, v, " A"@)
            &&& state_has(s, "power"@, v) ==> report_has(r, "  Power:          "@, v, " W"@)
            &&& state_has(s, "frequency"@, v) ==> report_has(r, "  Frequency:      "@, v, " Hz"@)
            &&& state_has(s, "power_factor"@, v) ==> report_has(r, "  Power Factor:   "@, v, ""@)
            &&& state_has(s, "energy"@, v) ==> report_has(r, "  Total Energy:   "@, v, " kWh"@)
            &&& state_has(s, "session_energy"@, v) ==> report_has(
                r,
                "  Session Energy: "@,
                v,
                " kWh"@,
            )
            &&& state_has(s, "cost"@, v) ==> report_has(r, "  Cost:           "@, v, ""@)
            &&& state_has(s, "temperature"@, v) ==> report_has(r, "  CPU Temp:       "@, v, " C"@)
            &&& state_has(s, "leakage_ma"@, v) ==> report_has(r, "  Leakage:        "@, v, " mA"@)
            &&& state_has(s, "switch"@, v) ==> report_has(r, "  Switch:         "@, v, ""@)
        }),
{
    let t = DeviceType::At4pw;
    row_and_line(dps, t, 0, v);
    row_and_line(dps, t, 1, v);
    row_and_line(dps, t, 2, v);
    row_and_line(dps, t, 3, v);
    row_and_line(dps, t, 4, v);
    row_and_line(dps, t, 5, v);
    row_and_line(dps, t, 6, v);
    row_and_line(dps, t, 7, v);
    row_and_line(dps, t, 8, v);
    row_and_line(dps, t, 9, v);
    row_and_line(dps, t, 10, v);
}

/// What the lines of the report on a clamp meter show.
pub proof fn clamp_reports_show_the_state(dps: JsonModel, v: Shown)
    ensures
        ({
            let s = state_of(dps, DeviceType::Ct);
            let r = report_of(dps, DeviceType::Ct);
            &&& state_has(s, "voltage"@, v) ==> report_has(r, "  Voltage:        "@, v, " V"@)
            &&& state_has(s, "current"@, v) ==> report_has(r, "  Current:        "@, v, " A"@)
            &&& state_has(s, "power"@, v) ==> report_has(r, "  Power:          "@, v, " W"@)
            &&& state_has(s, "frequency"@, v) ==> report_has(r, "  Frequency:      "@, v, " Hz"@)
            &&& state_has(s, "power_factor"@, v) ==> report_has(r, "  Power Factor:   "@, v, ""@)
            &&& state_has(s, "energy"@, v) ==> report_has(r, "  Total Energy:   "@, v, " kWh"@)
            &&& state_has(s, "temperature"@, v) ==> report_has(r, "  Temperature:    "@, v, " C"@)
        }),
{
    let t = DeviceType::Ct;
    row_and_line(dps, t, 0, v);
    row_and_line(dps, t, 1, v);
    row_and_line(dps, t, 2, v);
    row_and_line(dps, t, 3, v);
    row_and_line(dps, t, 4, v);
    row_and_line(dps, t, 5, v);
    row_and_line(dps, t, 6, v);
}

proof fn row_and_line(dps: JsonModel, dev_type: DeviceType, r: int, v: Shown)
    requires
        0 <= r < state_table(dev_type).len(),
    ensures
        ({
            let rows = report_table(dev_type);
            let k = partner(dev_type, r);
            state_has(state_of(dps, dev_type), state_table(dev_type)[r].0@, v) ==> report_has(
                report_of(dps, dev_type),
                rows[k].0@,
                v,
                rows[k].2@,
            )
        }),
{
    let rows = report_table(dev_type);
    let k = partner(dev_type, r);
    fields_come_from_their_row(dps, dev_type, r, v);
    assert(rows[k].1 == state_table(dev_type)[r].1);
    if reading_from(dps, rows[k].1) == Some(v) {
        rows_have_their_line(dps, title_of(dev_type), rows, k, v);
    }
}

/// The report shows the values of the state, with the same scales, and no others.
pub proof fn report_shows_the_state(dps: JsonModel, dev_type: DeviceType, v: Shown)
    ensures
        state_holds(state_of(dps, dev_type), v) <==> report_shows(report_of(dps, dev_type), v),
{
    let rows = state_table(dev_type);
    let lines = report_table(dev_type);
    let state = state_of(dps, dev_type);
    let report = report_of(dps, dev_type);
    if state_holds(state, v) {
        let i = choose|i: int| 0 <= i < state.len() && (#[trigger] state[i]).1 == v;
        let r = present_comes_from(dps, rows, i);
        assert(lines[partner(dev_type, r)].1 == rows[r].1);
        lines_are_shown(dps, title_of(dev_type), lines, partner(dev_type, r), v);
    }
    if report_shows(report, v) {
        let i = choose|i: int| 0 <= i < report.len() && line_shows(#[trigger] report[i], v);
        let r = line_comes_from(dps, title_of(dev_type), lines, i, v);
        assert(rows[partner(dev_type, r)].1 == lines[r].1);
        let k = rows_are_present(dps, rows, partner(dev_type, r));
        assert(state[k].1 == v);
    }
}

} // verus!
