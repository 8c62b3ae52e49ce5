//! The commands that a device understands: asking for its data points, and setting one.

use crate::bytes::{append, begins_with};
use crate::device::{
    found_in, messages_carry_their_moment, opens_to, stripped, Device, TuyaDevice,
};
use crate::dps::dps_in;
use crate::frame::{clock_nonce, stripped_6699, tag_35, ProtoVer};
use crate::json::{
    distinct_values_are_settled, first_key, get_in, json_text, key_at_is_first, keys_differ,
    settled, whole_number, Fields, Json, JsonModel,
};
use crate::text::{dec, decimal};
use vstd::prelude::*;

verus! {

pub const CMD_CONTROL: u32 = 7;

pub const CMD_DP_QUERY: u32 = 10;

pub const CMD_CONTROL_NEW: u32 = 13;

pub const CMD_DP_QUERY_NEW: u32 = 16;

pub const CMD_UPDATEDPS: u32 = 18;

/// The data points of all supported meters.
pub open spec fn dp_list() -> Seq<u32> {
    seq![
        1u32, 6, 9, 11, 12, 13, 14, 17, 18, 19, 20, 32, 50,
        101, 102, 103, 104, 105, 106, 107, 108, 109, 110,
        111, 112, 113, 114, 115, 116, 117, 118, 119, 120, 121, 122, 123, 124, 125,
        126, 131, 132, 133, 134, 135, 136, 137, 138, 139, 140, 141, 142, 143,
    ]
}

/// Which data points are asked for: a few single ones, and four runs. None is listed twice, and they
/// are listed in rising order.
pub proof fn data_points_are_listed_in_runs(n: u32, i: int, j: int)
    ensures
        dp_list().contains(n) <==> n == 1 || n == 6 || n == 9 || 11 <= n <= 14 || 17 <= n <= 20 || n
            == 32 || n == 50 || 101 <= n <= 126 || 131 <= n <= 143,
        0 <= i < j < dp_list().len() ==> dp_list()[i] < dp_list()[j],
{
    let list = dp_list();
    if n == 1 {
        assert(list[0] == n);
    } else if n == 6 {
        assert(list[1] == n);
    } else if n == 9 {
        assert(list[2] == n);
    } else if 11 <= n <= 14 {
        assert(list[n - 8] == n);
    } else if 17 <= n <= 20 {
        assert(list[n - 10] == n);
    } else if n == 32 {
        assert(list[11] == n);
    } else if n == 50 {
        assert(list[12] == n);
    } else if 101 <= n <= 126 {
        assert(list[n - 88] == n);
    } else if 131 <= n <= 143 {
        assert(list[n - 92] == n);
    }
}

/// The data points of all supported meters.
pub fn all_dps() -> (r: Vec<u32>)
    ensures
        r@ == dp_list(),
{
    let list: Vec<u32> = vec![
        1, 6, 9, 11, 12, 13, 14, 17, 18, 19, 20, 32, 50,
        101, 102, 103, 104, 105, 106, 107, 108, 109, 110,
        111, 112, 113, 114, 115, 116, 117, 118, 119, 120, 121, 122, 123, 124, 125,
        126, 131, 132, 133, 134, 135, 136, 137, 138, 139, 140, 141, 142, 143,
    ];
    assert(list@ =~= dp_list());
    list
}

/// The bytes of the text of a value.
pub open spec fn json_bytes(m: JsonModel) -> Seq<u8> {
    vstd::utf8::encode_utf8(json_text(settled(m)))
}

/// A value is sent as the UTF-8 bytes of its text, in which every key has its last value.
pub proof fn values_are_sent_as_text(m: JsonModel)
    ensures
        json_bytes(m) == vstd::utf8::encode_utf8(json_text(settled(m))),
        vstd::utf8::decode_utf8(json_bytes(m)) == json_text(settled(m)),
{
    vstd::utf8::encode_utf8_decode_utf8(json_text(settled(m)));
}

fn bytes_of_text(s: &str) -> (r: Vec<u8>)
    ensures
        r@ == vstd::utf8::encode_utf8(s@),
{
    vstd::slice::slice_to_vec(s.as_bytes())
}

// ── Asking for an update ──

/// What asks a device to send data points anew.
pub open spec fn update_request(dps: Seq<u32>) -> JsonModel {
    JsonModel::Object(
        seq![
            (
                "dpId"@,
                JsonModel::Array(
                    Seq::new(dps.len(), |i: int| JsonModel::Number(whole_number(dps[i] as int))),
                ),
            ),
        ],
    )
}

fn update_json(dps: &Vec<u32>) -> (r: Json)
    ensures
        r@ == update_request(dps@),
{
    let mut list: Vec<Json> = Vec::new();
    let mut i: usize = 0;
    while i < dps.len()
        invariant
            i <= dps@.len(),
            list@.len() == i,
            forall|k: int|
                0 <= k < i ==> (#[trigger] list@[k])@ == JsonModel::Number(
                    whole_number(dps@[k] as int),
                ),
        decreases dps@.len() - i,
    {
        list.push(Json::whole(dps[i] as i128));
        i = i + 1;
    }
    let items = Json::Array(list);
    assert(items@->Array_0 =~= update_request(dps@)->Object_0[0].1->Array_0);
    let mut fields: Vec<(String, Json)> = Vec::new();
    fields.push(("dpId".to_string(), items));
    let r = Json::Object(fields);
    assert(r@->Object_0 =~= update_request(dps@)->Object_0);
    r
}

// ── Asking for the state ──

/// What asks a device of version 3.3 for its state.
pub open spec fn query_text(dev_id: Seq<char>, now_secs: u64) -> Seq<char> {
    "{\"gwId\":\""@ + dev_id + "\",\"devId\":\""@ + dev_id + "\",\"uid\":\""@ + dev_id
        + "\",\"t\":\""@ + dec(now_secs as nat) + "\"}"@
}

/// The command and the plaintext that ask a device for its state.
pub open spec fn state_query(dev: Device, now_secs: u64) -> (u32, Seq<u8>) {
    if dev.version == ProtoVer::V33 {
        (CMD_DP_QUERY, vstd::utf8::encode_utf8(query_text(dev.dev_id, now_secs)))
    } else {
        (CMD_DP_QUERY_NEW, vstd::utf8::encode_utf8("{}"@))
    }
}

/// In version 3.3 the state is asked for by the command 10; in the other versions, whatever the
/// device and the moment, by the command 16 with an empty object.
pub proof fn states_are_asked_for_by_version(dev: Device, now_secs: u64)
    ensures
        dev.version == ProtoVer::V33 ==> state_query(dev, now_secs).0 == 10,
        dev.version != ProtoVer::V33 ==> state_query(dev, now_secs) == (
            16u32,
            seq![0x7bu8, 0x7du8],
        ),
{
    empty_object_bytes();
}

proof fn empty_object_bytes()
    ensures
        vstd::utf8::encode_utf8("{}"@) == seq![0x7bu8, 0x7du8],
{
    reveal_strlit("{}");
    let s = "{}"@;
    assert(vstd::utf8::is_ascii_chars(s));
    vstd::utf8::is_ascii_chars_encode_utf8(s);
    assert(vstd::utf8::encode_utf8(s) =~= seq![0x7bu8, 0x7du8]);
}

/// A member of an object whose value is a text.
pub open spec fn text_member(key: Seq<char>, value: Seq<char>) -> Seq<char> {
    seq!['"'] + key + seq!['"', ':', '"'] + value + seq!['"']
}

/// What asks a device of version 3.3 for its state is an object that names the device three
/// times, and the moment.
pub proof fn queries_name_the_device(dev_id: Seq<char>, now_secs: u64)
    ensures
        query_text(dev_id, now_secs) == seq!['{'] + text_member("gwId"@, dev_id) + seq![',']
            + text_member("devId"@, dev_id) + seq![','] + text_member("uid"@, dev_id) + seq![',']
            + text_member("t"@, dec(now_secs as nat)) + seq!['}'],
{
    reveal_strlit("{\"gwId\":\"");
    reveal_strlit("\",\"devId\":\"");
    reveal_strlit("\",\"uid\":\"");
    reveal_strlit("\",\"t\":\"");
    reveal_strlit("\"}");
    reveal_strlit("gwId");
    reveal_strlit("devId");
    reveal_strlit("uid");
    reveal_strlit("t");
    let t = dec(now_secs as nat);
    let a = seq!['{'] + text_member("gwId"@, dev_id);
    assert(a =~= "{\"gwId\":\""@ + dev_id + seq!['"']);
    let b = a + seq![','] + text_member("devId"@, dev_id);
    let b0 = "{\"gwId\":\""@ + dev_id + "\",\"devId\":\""@ + dev_id;
    assert(b =~= b0 + seq!['"']);
    let c = b + seq![','] + text_member("uid"@, dev_id);
    let c0 = b0 + "\",\"uid\":\""@ + dev_id;
    assert(c =~= c0 + seq!['"']);
    let d = c + seq![','] + text_member("t"@, t);
    let d0 = c0 + "\",\"t\":\""@ + t;
    assert(d =~= d0 + seq!['"']);
    assert(d + seq!['}'] =~= d0 + "\"}"@);
}

/// An update request lists the data points, one number for each, in their order.
pub proof fn updates_list_the_data_points(dps: Seq<u32>)
    ensures
        get_in(update_request(dps), "dpId"@) matches Some(JsonModel::Array(items)) && items.len()
            == dps.len() && forall|i: int|
            0 <= i < dps.len() ==> #[trigger] items[i] == JsonModel::Number(
                whole_number(dps[i] as int),
            ),
{
    let fields = update_request(dps)->Object_0;
    assert(fields[0].0 == "dpId"@);
    first_key(fields, "dpId"@, 0);
}

// ── Setting a data point ──

/// What sets a data point.
pub open spec fn setting(version: ProtoVer, dev_id: Seq<char>, dp: Seq<char>, value: JsonModel, now_secs: u64) -> JsonModel {
    let dps = JsonModel::Object(seq![(dp, value)]);
    let fields: Fields = if version == ProtoVer::V33 {
        seq![
            ("devId"@, JsonModel::Str(dev_id)),
            ("uid"@, JsonModel::Str(dev_id)),
            ("t"@, JsonModel::Str(dec(now_secs as nat))),
            ("dps"@, dps),
        ]
    } else {
        seq![
            ("protocol"@, JsonModel::Number(whole_number(5))),
            ("t"@, JsonModel::Number(whole_number(now_secs as int))),
            ("data"@, JsonModel::Object(seq![("dps"@, dps)])),
        ]
    };
    JsonModel::Object(fields)
}

/// No key occurs twice in what sets a data point, so that it is written as it is.
pub proof fn settings_are_settled(
    version: ProtoVer,
    dev_id: Seq<char>,
    dp: Seq<char>,
    value: JsonModel,
    now_secs: u64,
)
    requires
        keys_differ(value),
    ensures
        settled(setting(version, dev_id, dp, value, now_secs)) == setting(
            version,
            dev_id,
            dp,
            value,
            now_secs,
        ),
{
    reveal_strlit("devId");
    reveal_strlit("uid");
    reveal_strlit("t");
    reveal_strlit("dps");
    reveal_strlit("protocol");
    reveal_strlit("data");
    let whole = setting(version, dev_id, dp, value, now_secs);
    let fields = whole->Object_0;
    let dps = JsonModel::Object(seq![(dp, value)]);
    assert(keys_differ(dps->Object_0[0].1));
    assert(keys_differ(dps));
    if version == ProtoVer::V33 {
        assert(fields[0].0.len() == 5 && fields[1].0.len() == 3 && fields[2].0.len() == 1
            && fields[3].0.len() == 3);
        assert(fields[1].0[0] == 'u' && fields[3].0[0] == 'd');
        assert(keys_differ(fields[0].1) && keys_differ(fields[1].1) && keys_differ(fields[2].1));
    } else {
        assert(fields[0].0.len() == 8 && fields[1].0.len() == 1 && fields[2].0.len() == 4);
        assert(keys_differ(fields[0].1) && keys_differ(fields[1].1));
        assert(keys_differ(fields[2].1->Object_0[0].1));
        assert(keys_differ(fields[2].1));
    }
    assert(keys_differ(whole));
    distinct_values_are_settled(whole);
}

/// Who looks for the data points in what sets one finds exactly that one, with the value that was
/// given, whatever the version: so settings of different values differ.
pub proof fn settings_hold_what_was_given(
    version: ProtoVer,
    dev_id: Seq<char>,
    dp: Seq<char>,
    value: JsonModel,
    now_secs: u64,
)
    ensures
        dps_in(setting(version, dev_id, dp, value, now_secs)) == Some(
            JsonModel::Object(seq![(dp, value)]),
        ),
        ({
            let m = setting(version, dev_id, dp, value, now_secs);
            match version {
                ProtoVer::V33 => get_in(m, "devId"@) == Some(JsonModel::Str(dev_id)) && get_in(
                    m,
                    "uid"@,
                ) == Some(JsonModel::Str(dev_id)) && get_in(m, "t"@) == Some(
                    JsonModel::Str(dec(now_secs as nat)),
                ),
                _ => get_in(m, "protocol"@) == Some(JsonModel::Number(whole_number(5))) && get_in(
                    m,
                    "t"@,
                ) == Some(JsonModel::Number(whole_number(now_secs as int))),
            }
        }),
{
    reveal_strlit("devId");
    reveal_strlit("uid");
    reveal_strlit("t");
    reveal_strlit("dps");
    reveal_strlit("protocol");
    reveal_strlit("data");
    let m = setting(version, dev_id, dp, value, now_secs);
    let fields = m->Object_0;
    key_at_is_first(fields, "data"@);
    if version == ProtoVer::V33 {
        assert(fields[0].0.len() == 5 && fields[1].0.len() == 3 && fields[2].0.len() == 1
            && fields[3].0.len() == 3 && fields[1].0[0] == 'u' && fields[3].0[0] == 'd');
        first_key(fields, "devId"@, 0);
        first_key(fields, "uid"@, 1);
        first_key(fields, "t"@, 2);
        first_key(fields, "dps"@, 3);
        assert(get_in(m, "data"@) is None);
    } else {
        assert(fields[0].0.len() == 8 && fields[1].0.len() == 1 && fields[2].0.len() == 4);
        first_key(fields, "protocol"@, 0);
        first_key(fields, "t"@, 1);
        first_key(fields, "data"@, 2);
        let inner = fields[2].1->Object_0;
        assert(inner[0].0 == "dps"@);
        first_key(inner, "dps"@, 0);
    }
}

/// Orders to switch on and to switch off differ, and each says what it is for.
pub proof fn switch_orders_differ(version: ProtoVer, dev_id: Seq<char>, now_secs: u64, on: bool)
    ensures
        ({
            let m = setting(version, dev_id, "1"@, JsonModel::Bool(on), now_secs);
            &&& dps_in(m) matches Some(dps) && get_in(dps, "1"@) == Some(JsonModel::Bool(on))
            &&& m != setting(version, dev_id, "1"@, JsonModel::Bool(!on), now_secs)
        }),
{
    settings_hold_what_was_given(version, dev_id, "1"@, JsonModel::Bool(on), now_secs);
    settings_hold_what_was_given(version, dev_id, "1"@, JsonModel::Bool(!on), now_secs);
    let dps = seq![("1"@, JsonModel::Bool(on))];
    let other = seq![("1"@, JsonModel::Bool(!on))];
    assert(dps[0].1 != other[0].1);
    first_key(dps, "1"@, 0);
}

/// The header of a plaintext that sets a data point: the version and twelve zero bytes.
pub open spec fn version_header(version: ProtoVer) -> Seq<u8> {
    let digit: u8 = match version {
        ProtoVer::V33 => 0x33,
        ProtoVer::V34 => 0x34,
        ProtoVer::V35 => 0x35,
    };
    seq![0x33u8, 0x2eu8, digit] + Seq::new(12, |i: int| 0u8)
}

/// The header comes off a plaintext that it was put before. In version 3.5 that holds of JSON
/// objects, and of what is too short for a return code.
pub proof fn version_headers_come_off(version: ProtoVer, text: Seq<u8>)
    ensures
        version != ProtoVer::V35 ==> stripped(version_header(version) + text) == text,
        version == ProtoVer::V35 && (text.len() < 4 || text[0] == 0x7b) ==> stripped_6699(
            version_header(version) + text,
        ) == text,
{
    let whole = version_header(version) + text;
    assert(whole.skip(15) =~= text);
    assert(whole.take(3) =~= seq![whole[0], whole[1], whole[2]]);
    match version {
        ProtoVer::V33 => {
            assert(begins_with(whole, seq![0x33u8, 0x2eu8, 0x33u8]));
        },
        ProtoVer::V34 => {
            assert(begins_with(whole, seq![0x33u8, 0x2eu8, 0x34u8]));
        },
        ProtoVer::V35 => {
            assert(begins_with(whole, tag_35()));
        },
    }
}

/// The command and the plaintext that set a data point.
pub open spec fn control(dev: Device, dp: Seq<char>, value: JsonModel, now_secs: u64) -> (u32, Seq<u8>) {
    (
        if dev.version == ProtoVer::V33 {
            CMD_CONTROL
        } else {
            CMD_CONTROL_NEW
        },
        version_header(dev.version) + json_bytes(
            setting(dev.version, dev.dev_id, dp, value, now_secs),
        ),
    )
}

/// A data point is set by the command 7 in version 3.3, and by 13 in the others. The plaintext is
/// the version as a text of three characters, twelve zero bytes, and the text of the setting.
pub proof fn settings_have_version_and_command(
    dev: Device,
    dp: Seq<char>,
    value: JsonModel,
    now_secs: u64,
)
    ensures
        ({
            let (cmd, plain) = control(dev, dp, value, now_secs);
            let name = match dev.version {
                ProtoVer::V33 => "3.3"@,
                ProtoVer::V34 => "3.4"@,
                ProtoVer::V35 => "3.5"@,
            };
            &&& cmd == 7 <==> dev.version == ProtoVer::V33
            &&& cmd == 13 <==> dev.version != ProtoVer::V33
            &&& plain.len() >= 15
            &&& forall|i: int| 0 <= i < 3 ==> #[trigger] plain[i] == name[i] as u8
            &&& forall|i: int| 3 <= i < 15 ==> #[trigger] plain[i] == 0
            &&& plain.skip(15) == vstd::utf8::encode_utf8(
                json_text(settled(setting(dev.version, dev.dev_id, dp, value, now_secs))),
            )
        }),
{
    reveal_strlit("3.3");
    reveal_strlit("3.4");
    reveal_strlit("3.5");
    let (cmd, plain) = control(dev, dp, value, now_secs);
    let text = vstd::utf8::encode_utf8(
        json_text(settled(setting(dev.version, dev.dev_id, dp, value, now_secs))),
    );
    assert(plain.skip(15) =~= text);
}

fn header_bytes(version: ProtoVer) -> (r: Vec<u8>)
    ensures
        r@ == version_header(version),
{
    let digit: u8 = match version {
        ProtoVer::V33 => 0x33,
        ProtoVer::V34 => 0x34,
        ProtoVer::V35 => 0x35,
    };
    let mut out: Vec<u8> = vec![0x33, 0x2e, digit, 0, 0, 0, 0, 0, 0, 0, 0, 0, 0, 0, 0];
    assert(out@ =~= version_header(version));
    out
}

fn one_field(key: &str, value: Json) -> (r: Json)
    ensures
        r@ == JsonModel::Object(seq![(key@, value@)]),
{
    let mut fields: Vec<(String, Json)> = Vec::new();
    fields.push((key.to_string(), value));
    let r = Json::Object(fields);
    assert(r@->Object_0 =~= seq![(key@, value@)]);
    r
}

/// The value that sets a data point.
pub fn setting_json(version: ProtoVer, dev_id: &str, dp: &str, value: &Json, now_secs: u64) -> (r:
    Json)
    ensures
        r@ == setting(version, dev_id@, dp@, value@, now_secs),
{
    let dps = one_field(dp, value.duplicate());
    let mut fields: Vec<(String, Json)> = Vec::new();
    if version == ProtoVer::V33 {
        fields.push(("devId".to_string(), Json::text(dev_id)));
        fields.push(("uid".to_string(), Json::text(dev_id)));
        fields.push(("t".to_string(), Json::text(decimal(now_secs).as_str())));
        fields.push(("dps".to_string(), dps));
    } else {
        fields.push(("protocol".to_string(), Json::whole(5)));
        fields.push(("t".to_string(), Json::whole(now_secs as i128)));
        fields.push(("data".to_string(), one_field("dps", dps)));
    }
    let r = Json::Object(fields);
    assert(r@->Object_0 =~= setting(version, dev_id@, dp@, value@, now_secs)->Object_0);
    r
}

impl Device {
    /// The device and the message after it was given a command; nothing where the command cannot
    /// be sent.
    pub open spec fn commanded(self, command: (u32, Seq<u8>), ticks: u64) -> Option<(Device, Seq<u8>)> {
        if self.can_send(command.1) {
            Some((self.advanced(), self.message(command.0, self.enciphered(command.1), ticks)))
        } else {
            None
        }
    }
}

/// A command goes out under the next number, in version 3.5 with the nonce of its moment.
pub proof fn commands_take_the_next_number(dev: Device, command: (u32, Seq<u8>), ticks: u64)
    ensures
        dev.commanded(command, ticks) matches Some((next, msg)) ==> dev.seqno < u32::MAX
            && next.seqno == dev.seqno + 1 && next.session_key == dev.session_key && next.local_key
            == dev.local_key && next.version == dev.version && next.dev_id == dev.dev_id,
        dev.commanded(command, ticks) matches Some((next, msg)) ==> (dev.version == ProtoVer::V35
            ==> msg.subrange(18, 30) == clock_nonce(ticks)),
        dev.seqno == u32::MAX ==> dev.commanded(command, ticks) is None,
{
    if dev.version == ProtoVer::V35 {
        messages_carry_their_moment(
            dev,
            command.0,
            dev.enciphered(command.1),
            dev.command_key(),
            ticks,
        );
    }
}

/// What building a message for a command gives. Whoever has the key finds the command in it.
pub open spec fn sent(before: Device, after: Device, command: (u32, Seq<u8>), ticks: u64, r: Option<Vec<u8>>) -> bool {
    match before.commanded(command, ticks) {
        Some((dev, msg)) => r matches Some(m) && m@ == msg && after == dev && opens_to(
            before,
            m@,
            command.0,
            command.1,
        ),
        None => r is None && after == before,
    }
}

impl TuyaDevice {
    /// Builds the message that asks for the state.
    pub fn query_message(&mut self, now_secs: u64, ticks: u64) -> (r: Option<Vec<u8>>)
        ensures
            sent(old(self)@, final(self)@, state_query(old(self)@, now_secs), ticks, r),
            r matches Some(msg) ==> (old(self).version != ProtoVer::V33 ==> found_in(
                old(self).version,
                old(self)@.command_key(),
                msg@,
            ) == Some(((old(self).seqno + 1) as u32, 16u32, seq![0x7bu8, 0x7du8]))),
            old(self).version != ProtoVer::V33 ==> (r is None <==> old(self).seqno == u32::MAX),
    {
        proof {
            empty_object_bytes();
        }
        if self.version == ProtoVer::V33 {
            let mut text = "{\"gwId\":\"".to_string();
            text.append(self.dev_id.as_str());
            text.append("\",\"devId\":\"");
            text.append(self.dev_id.as_str());
            text.append("\",\"uid\":\"");
            text.append(self.dev_id.as_str());
            text.append("\",\"t\":\"");
            text.append(decimal(now_secs).as_str());
            text.append("\"}");
            let payload = bytes_of_text(text.as_str());
            self.command(CMD_DP_QUERY, payload.as_slice(), ticks)
        } else {
            let payload = bytes_of_text("{}");
            self.command(CMD_DP_QUERY_NEW, payload.as_slice(), ticks)
        }
    }

    /// Builds the message that asks for all data points anew.
    pub fn update_message(&mut self, ticks: u64) -> (r: Option<Vec<u8>>)
        ensures
            sent(
                old(self)@,
                final(self)@,
                (CMD_UPDATEDPS, json_bytes(update_request(dp_list()))),
                ticks,
                r,
            ),
    {
        let list = all_dps();
        let text = update_json(&list).to_text();
        let payload = bytes_of_text(text.as_str());
        self.command(CMD_UPDATEDPS, payload.as_slice(), ticks)
    }

    /// Builds the message that sets a data point.
    pub fn set_dp(&mut self, dp: &str, value: &Json, now_secs: u64, ticks: u64) -> (r: Option<
        Vec<u8>,
    >)
        ensures
            sent(old(self)@, final(self)@, control(old(self)@, dp@, value@, now_secs), ticks, r),
            r matches Some(msg) ==> (control(old(self)@, dp@, value@, now_secs).1.len() + 64
                <= u32::MAX ==> found_in(old(self).version, old(self)@.command_key(), msg@) == Some(
                (
                    (old(self).seqno + 1) as u32,
                    if old(self).version == ProtoVer::V33 {
                        7u32
                    } else {
                        13u32
                    },
                    control(old(self)@, dp@, value@, now_secs).1,
                ),
            )),
    {
        let payload = setting_json(self.version, self.dev_id.as_str(), dp, value, now_secs);
        let text = payload.to_text();
        let mut with_hdr = header_bytes(self.version);
        append(&mut with_hdr, text.as_str().as_bytes());
        let cmd: u32 = if self.version == ProtoVer::V33 {
            CMD_CONTROL
        } else {
            CMD_CONTROL_NEW
        };
        self.command(cmd, with_hdr.as_slice(), ticks)
    }

    /// Builds the message that sets the switch.
    pub fn set_switch(&mut self, on: bool, now_secs: u64, ticks: u64) -> (r: Option<Vec<u8>>)
        ensures
            sent(
                old(self)@,
                final(self)@,
                control(old(self)@, "1"@, JsonModel::Bool(on), now_secs),
                ticks,
                r,
            ),
    {
        self.set_dp("1", &Json::Bool(on), now_secs, ticks)
    }
}

} // verus!
