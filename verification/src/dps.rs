//! The data points of a device: numbered values, which it sends as JSON.

use crate::bytes::{copy_range, first_at, first_at_is_first, position};
use crate::config::DeviceType;
use crate::json::{
    get_in, json_read, json_view, keys_differ, keys_differ_inside, parse_json, Json, JsonModel,
};
use crate::text::{text_from_utf8, utf8_fault};
use vstd::prelude::*;

verus! {

/// Why a payload holds no data points.
#[derive(Debug)]
pub enum DpsError {
    Utf8(String),
    Json { why: String, text: String },
}

/// A [`DpsError`] with its texts taken by their view.
pub ghost enum DpsFault {
    Utf8(Seq<char>),
    Json { why: Seq<char>, text: Seq<char> },
}

impl View for DpsError {
    type V = DpsFault;

    open spec fn view(&self) -> DpsFault {
        match self {
            DpsError::Utf8(why) => DpsFault::Utf8(why@),
            DpsError::Json { why, text } => DpsFault::Json { why: why@, text: text@ },
        }
    }
}

impl DpsFault {
    /// The sentence for this error.
    pub open spec fn sentence(self) -> Seq<char> {
        match self {
            DpsFault::Utf8(why) => "utf8: "@ + why,
            DpsFault::Json { why, text } => "json: "@ + why + ": "@ + text,
        }
    }
}

/// The sentences for errors say what kind of error it is, and give the reason; where JSON was
/// expected, they end with what was there.
pub proof fn sentences_give_their_reason(why: Seq<char>, text: Seq<char>)
    ensures
        DpsFault::Utf8(why).sentence().take(6) == "utf8: "@,
        DpsFault::Utf8(why).sentence().skip(6) == why,
        (DpsFault::Json { why, text }).sentence().take(6) == "json: "@,
        (DpsFault::Json { why, text }).sentence().skip(6) == why + (": "@ + text),
{
    reveal_strlit("utf8: ");
    reveal_strlit("json: ");
    let utf8 = DpsFault::Utf8(why).sentence();
    let json = (DpsFault::Json { why, text }).sentence();
    assert(utf8.take(6) =~= "utf8: "@ && utf8.skip(6) =~= why);
    assert(json.take(6) =~= "json: "@ && json.skip(6) =~= why + (": "@ + text));
}

impl DpsError {
    /// Says what is wrong.
    pub fn message(&self) -> (r: String)
        ensures
            r@ == self@.sentence(),
    {
        match self {
            DpsError::Utf8(why) => {
                let mut out = "utf8: ".to_string();
                out.append(why.as_str());
                out
            },
            DpsError::Json { why, text } => {
                let mut out = "json: ".to_string();
                out.append(why.as_str());
                out.append(": ");
                out.append(text.as_str());
                out
            },
        }
    }
}

/// The data points in a message: those under `data`, else those at the top.
pub open spec fn dps_in(m: JsonModel) -> Option<JsonModel> {
    let inner = match get_in(m, "data"@) {
        Some(data) => get_in(data, "dps"@),
        None => None,
    };
    match inner {
        Some(dps) => Some(dps),
        None => get_in(m, "dps"@),
    }
}

/// Data points under `data` come before those at the top; where there are none under `data`, or
/// no `data`, those at the top count.
pub proof fn inner_data_points_come_first(m: JsonModel, data: JsonModel, dps: JsonModel)
    ensures
        get_in(m, "data"@) == Some(data) && get_in(data, "dps"@) == Some(dps) ==> dps_in(m) == Some(
            dps,
        ),
        get_in(m, "data"@) == Some(data) && get_in(data, "dps"@) is None ==> dps_in(m) == get_in(
            m,
            "dps"@,
        ),
        get_in(m, "data"@) is None ==> dps_in(m) == get_in(m, "dps"@),
{
}

/// The data points in a message.
pub fn extract_dps(val: &Json) -> (r: Option<Json>)
    ensures
        dps_in(val@) == (match r {
            Some(dps) => Some(dps@),
            None => None,
        }),
{
    if let Some(data) = val.get("data") {
        if let Some(dps) = data.get("dps") {
            return Some(dps.duplicate());
        }
    }
    if let Some(dps) = val.get("dps") {
        return Some(dps.duplicate());
    }
    None
}

/// A payload from its first brace on; all of it where it has none.
pub open spec fn from_brace(data: Seq<u8>) -> Seq<u8> {
    match first_at(data, 0x7b) {
        Some(i) => data.skip(i),
        None => data,
    }
}

/// The data points that a payload holds. A message without them counts as a whole.
pub open spec fn dps_read(data: Seq<u8>) -> Result<JsonModel, DpsFault> {
    let bytes = from_brace(data);
    if !vstd::utf8::valid_utf8(bytes) {
        Err(DpsFault::Utf8(utf8_fault(bytes)))
    } else {
        let text = vstd::utf8::decode_utf8(bytes);
        match json_read(text) {
            Err(why) => Err(DpsFault::Json { why, text }),
            Ok(val) => Ok(
                match dps_in(val) {
                    Some(dps) => dps,
                    None => val,
                },
            ),
        }
    }
}

/// What stands before the first brace of a payload does not matter, and the text from there on is
/// read as a whole: its data points, where it names some, else all of it.
pub proof fn payloads_are_read_from_the_brace(junk: Seq<u8>, text: Seq<char>, val: JsonModel)
    requires
        forall|i: int| 0 <= i < junk.len() ==> #[trigger] junk[i] != 0x7b,
        text.len() > 0,
        text[0] == '{',
        json_read(text) == Ok::<JsonModel, Seq<char>>(val),
    ensures
        dps_read(junk + vstd::utf8::encode_utf8(text)) == Ok::<JsonModel, DpsFault>(
            match dps_in(val) {
                Some(dps) => dps,
                None => val,
            },
        ),
{
    let bytes = vstd::utf8::encode_utf8(text);
    let whole = junk + bytes;
    vstd::utf8::encode_utf8_valid_utf8(text);
    vstd::utf8::encode_utf8_decode_utf8(text);
    assert(bytes[0] == 0x7b) by {
        assert(0x7bu32 & 0x7f == 0x7b) by (bit_vector);
        reveal_with_fuel(vstd::utf8::encode_utf8, 2);
    }
    first_at_is_first(whole, 0x7b);
    let i = first_at(whole, 0x7b)->0;
    assert(whole[junk.len() as int] == 0x7b);
    if i < junk.len() {
        assert(whole[i] == junk[i]);
    }
    assert(i == junk.len());
    assert(whole.skip(i) =~= bytes);
}

/// A payload without a brace is read as a whole. Bytes that are no text are refused, and so is text
/// that is no JSON, with the reason and the text.
pub proof fn other_payloads_are_read_or_refused(
    bytes: Seq<u8>,
    text: Seq<char>,
    val: JsonModel,
    why: Seq<char>,
)
    requires
        forall|i: int| 0 < i < bytes.len() ==> #[trigger] bytes[i] != 0x7b,
    ensures
        !vstd::utf8::valid_utf8(bytes) ==> dps_read(bytes) == Err::<JsonModel, DpsFault>(
            DpsFault::Utf8(utf8_fault(bytes)),
        ),
        vstd::utf8::encode_utf8(text) == bytes && json_read(text) == Err::<JsonModel, Seq<char>>(why)
            ==> dps_read(bytes) == Err::<JsonModel, DpsFault>(DpsFault::Json { why, text }),
        vstd::utf8::encode_utf8(text) == bytes && json_read(text) == Ok::<JsonModel, Seq<char>>(val)
            ==> dps_read(bytes) == Ok::<JsonModel, DpsFault>(
            match dps_in(val) {
                Some(dps) => dps,
                None => val,
            },
        ),
{
    first_at_is_first(bytes, 0x7b);
    assert(from_brace(bytes) =~= bytes);
    vstd::utf8::encode_utf8_valid_utf8(text);
    vstd::utf8::encode_utf8_decode_utf8(text);
}

/// The view of a result of reading data points.
pub open spec fn dps_view(r: Result<Json, DpsError>) -> Result<JsonModel, DpsFault> {
    match r {
        Ok(dps) => Ok(dps@),
        Err(e) => Err(e@),
    }
}

/// The data points of a message: those that it names, else the message as a whole.
pub fn points_of(val: Json) -> (r: Json)
    ensures
        r@ == (match dps_in(val@) {
            Some(dps) => dps,
            None => val@,
        }),
{
    match extract_dps(&val) {
        Some(dps) => dps,
        None => val,
    }
}

/// The objects in the data points of a message have each key once where those in the message
/// have.
proof fn keys_differ_in_dps(m: JsonModel)
    requires
        keys_differ(m),
    ensures
        dps_in(m) matches Some(dps) ==> keys_differ(dps),
{
    keys_differ_inside(m, "dps"@);
    keys_differ_inside(m, "data"@);
    if let Some(data) = get_in(m, "data"@) {
        keys_differ_inside(data, "dps"@);
    }
}

/// Reads the data points that a payload holds.
pub fn parse_dps_response(data: &[u8]) -> (r: Result<Json, DpsError>)
    ensures
        dps_view(r) == dps_read(data@),
        r matches Ok(dps) ==> keys_differ(dps@),
{
    let json_start: usize = match position(data, 0x7b) {
        Some(i) => i,
        None => 0,
    };
    let json_bytes = copy_range(data, json_start, data.len());
    assert(json_bytes@ =~= from_brace(data@));
    match text_from_utf8(json_bytes) {
        Err(why) => Err(DpsError::Utf8(why)),
        Ok(text) => match parse_json(text.as_str()) {
            Err(why) => Err(DpsError::Json { why, text }),
            Ok(val) => {
                proof {
                    keys_differ_in_dps(val@);
                }
                Ok(points_of(val))
            },
        },
    }
}

/// The kind of meter that has some data points: a plug meter has a voltage or a current among
/// them.
pub open spec fn type_of(dps: JsonModel) -> DeviceType {
    if get_in(dps, "20"@) is Some || get_in(dps, "18"@) is Some {
        DeviceType::At4pw
    } else {
        DeviceType::Ct
    }
}

/// Tells the kind of meter by its data points.
pub fn detect_device_type(dps: &Json) -> (r: DeviceType)
    ensures
        r == type_of(dps@),
{
    if dps.get("20").is_some() || dps.get("18").is_some() {
        DeviceType::At4pw
    } else {
        DeviceType::Ct
    }
}

/// The kind of meter: the one that the settings name, else the one that its data points show,
/// and a plug meter where there are none.
pub open spec fn chosen_type(configured: Option<DeviceType>, dps: Option<JsonModel>) -> DeviceType {
    match (configured, dps) {
        (Some(t), _) => t,
        (None, Some(m)) => type_of(m),
        (None, None) => DeviceType::At4pw,
    }
}

/// A meter that has sent a voltage or a current as a data point of its own is a plug meter, any
/// other a clamp meter; but the settings have the last word, and without data points a plug meter
/// is assumed.
pub proof fn meters_are_told_by_data_points(configured: DeviceType, dps: JsonModel)
    ensures
        chosen_type(Some(configured), Some(dps)) == configured,
        chosen_type(Some(configured), None) == configured,
        chosen_type(None, None) == DeviceType::At4pw,
        chosen_type(None, Some(dps)) == DeviceType::Ct <==> get_in(dps, "18"@) is None && get_in(
            dps,
            "20"@,
        ) is None,
{
}

/// Settles the kind of meter.
pub fn choose_type(configured: Option<DeviceType>, dps: Option<&Json>) -> (r: DeviceType)
    ensures
        r == chosen_type(configured, json_view(dps)),
{
    match configured {
        Some(t) => t,
        None => match dps {
            Some(d) => detect_device_type(d),
            None => DeviceType::At4pw,
        },
    }
}

} // verus!
