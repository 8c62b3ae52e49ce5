//! Reading all data points of a device: a query, then an update request, whose answers come one
//! after the other and are put together.

use crate::control::{dp_list, json_bytes, state_query, update_request, CMD_UPDATEDPS};
use crate::device::{Device, TuyaDevice};
use crate::dps::{dps_read, parse_dps_response, DpsError, DpsFault};
use crate::frame::ProtocolError;
use crate::json::{
    distinct_keys, distinct_keys_have_one_value, duplicate_fields, field, fields_of, keys_differ,
    last_value, merge_fields, merged, merging_keeps_keys_distinct, merging_sets_last_values, Fields,
    Json, JsonModel,
};
use vstd::prelude::*;

verus! {

/// Why a device could not be read.
#[derive(Debug)]
pub enum DeviceError {
    Protocol(ProtocolError),
    Dps(DpsError),
    NoDps,
}

/// A [`DeviceError`] with its texts taken by their view.
pub ghost enum DeviceFault {
    Protocol(ProtocolError),
    Dps(DpsFault),
    NoDps,
}

impl View for DeviceError {
    type V = DeviceFault;

    open spec fn view(&self) -> DeviceFault {
        match self {
            DeviceError::Protocol(e) => DeviceFault::Protocol(*e),
            DeviceError::Dps(e) => DeviceFault::Dps(e@),
            DeviceError::NoDps => DeviceFault::NoDps,
        }
    }
}

impl DeviceFault {
    /// The sentence for this error.
    pub open spec fn sentence(self) -> Seq<char> {
        match self {
            DeviceFault::Protocol(e) => e.sentence(),
            DeviceFault::Dps(e) => e.sentence(),
            DeviceFault::NoDps => "no DPs received"@,
        }
    }
}

/// What is wrong with a message is said as where it was found.
pub proof fn sentences_are_handed_on(e: ProtocolError, why: Seq<char>, text: Seq<char>)
    ensures
        DeviceFault::Protocol(e).sentence() == e.sentence(),
        DeviceFault::Dps(DpsFault::Utf8(why)).sentence() == "utf8: "@ + why,
        DeviceFault::Dps((DpsFault::Json { why, text })).sentence() == "json: "@ + (why + (": "@
            + text)),
{
    assert("json: "@ + why + ": "@ + text =~= "json: "@ + (why + (": "@ + text)));
}

impl DeviceError {
    /// Says what is wrong.
    pub fn message(&self) -> (r: String)
        ensures
            r@ == self@.sentence(),
    {
        match self {
            DeviceError::Protocol(e) => e.message(),
            DeviceError::Dps(e) => e.message(),
            DeviceError::NoDps => "no DPs received".to_string(),
        }
    }
}

// ── Data points that a device sends on its own ──

/// The data points in a message that the device sent on its own. `None` stands for a message
/// that cannot be taken apart; a message without data points holds `None` inside.
pub open spec fn pushed_dps(dev: Device, resp: Seq<u8>) -> Option<
    Result<Option<JsonModel>, ProtocolError>,
> {
    match dev.push(resp) {
        None => None,
        Some(Err(e)) => Some(Err(e)),
        Some(Ok(None)) => Some(Ok(None)),
        Some(Ok(Some(payload))) => Some(
            Ok(
                match dps_read(payload) {
                    Ok(dps) => Some(dps),
                    Err(_) => None,
                },
            ),
        ),
    }
}

/// The view of received data points.
pub open spec fn received_view(r: Option<Result<Option<Json>, ProtocolError>>) -> Option<
    Result<Option<JsonModel>, ProtocolError>,
> {
    match r {
        None => None,
        Some(Err(e)) => Some(Err(e)),
        Some(Ok(None)) => Some(Ok(None)),
        Some(Ok(Some(dps))) => Some(Ok(Some(dps@))),
    }
}

impl TuyaDevice {
    /// Reads the data points in a message that the device sent on its own.
    pub fn recv_one(&self, resp: &[u8]) -> (r: Option<Result<Option<Json>, ProtocolError>>)
        ensures
            received_view(r) == pushed_dps(self@, resp@),
            r matches Some(Ok(Some(dps))) ==> keys_differ(dps@),
    {
        match self.open_push(resp) {
            None => None,
            Some(Err(e)) => Some(Err(e)),
            Some(Ok(None)) => Some(Ok(None)),
            Some(Ok(Some(payload))) => match parse_dps_response(payload.as_slice()) {
                Ok(dps) => Some(Ok(Some(dps))),
                Err(_) => Some(Ok(None)),
            },
        }
    }
}

/// Fields with those of received data points set in them.
pub open spec fn with_dps(fields: Fields, dps: Option<JsonModel>) -> Fields {
    match dps {
        Some(JsonModel::Object(more)) => merged(fields, more),
        _ => fields,
    }
}

/// Sets received data points in the fields.
pub fn add_dps(fields: &mut Vec<(String, Json)>, dps: &Json)
    ensures
        fields_of(final(fields)@) == with_dps(fields_of(old(fields)@), Some(dps@)),
{
    if let Some(more) = dps.as_object() {
        merge_fields(fields, more);
    }
}

// ── The update request ──

/// For how long, in nanoseconds, the answers to an update request are collected.
pub const COLLECT_NANOS: u128 = 8_000_000_000;

/// The answers to an update request.
#[derive(Debug)]
pub struct Collector {
    /// When the request was sent, in nanoseconds from any fixed moment.
    pub started: u128,
    pub fields: Vec<(String, Json)>,
}

/// A [`Collector`] with its fields taken by their view.
pub ghost struct Collected {
    pub started: u128,
    pub fields: Fields,
}

impl View for Collector {
    type V = Collected;

    open spec fn view(&self) -> Collected {
        Collected { started: self.started, fields: fields_of(self.fields@) }
    }
}

/// What happened while answers are collected.
#[derive(Debug)]
pub enum CollectEvent {
    /// A message came; the moment is the one after it.
    Received { data: Vec<u8>, now: u128 },
    /// Nothing came in time, or the connection broke.
    Silence,
}

/// A [`CollectEvent`] with its bytes taken by their view.
pub ghost enum CollectNews {
    Received { data: Seq<u8>, now: u128 },
    Silence,
}

impl View for CollectEvent {
    type V = CollectNews;

    open spec fn view(&self) -> CollectNews {
        match self {
            CollectEvent::Received { data, now } => CollectNews::Received { data: data@, now: *now },
            CollectEvent::Silence => CollectNews::Silence,
        }
    }
}

/// What is to be done while answers are collected.
#[derive(Debug)]
pub enum CollectAction {
    /// Wait for the next message.
    Receive,
    /// These are the data points.
    Done(Json),
    /// Give up.
    Failed(DeviceError),
    /// Stop: the message cannot be taken apart.
    Fatal,
}

/// A [`CollectAction`] with its data points taken by their view.
pub ghost enum CollectDuty {
    Receive,
    Done(JsonModel),
    Failed(DeviceFault),
    Fatal,
}

impl View for CollectAction {
    type V = CollectDuty;

    open spec fn view(&self) -> CollectDuty {
        match self {
            CollectAction::Receive => CollectDuty::Receive,
            CollectAction::Done(dps) => CollectDuty::Done(dps@),
            CollectAction::Failed(e) => CollectDuty::Failed(e@),
            CollectAction::Fatal => CollectDuty::Fatal,
        }
    }
}

impl Collected {
    /// Whether the time for answers is over.
    pub open spec fn over(self, now: u128) -> bool {
        now > self.started + COLLECT_NANOS
    }

    /// What the collected answers come to.
    pub open spec fn result(self) -> CollectDuty {
        if self.fields.len() == 0 {
            CollectDuty::Failed(DeviceFault::NoDps)
        } else {
            CollectDuty::Done(JsonModel::Object(self.fields))
        }
    }

    /// What is to be done after an event, and the answers from then on.
    pub open spec fn after(self, dev: Device, news: CollectNews) -> (Collected, CollectDuty) {
        match news {
            CollectNews::Silence => (self, self.result()),
            CollectNews::Received { data, now } => match pushed_dps(dev, data) {
                None => (self, CollectDuty::Fatal),
                Some(Err(e)) => (self, CollectDuty::Failed(DeviceFault::Protocol(e))),
                Some(Ok(dps)) => {
                    let next = Collected { fields: with_dps(self.fields, dps), ..self };
                    (
                        next,
                        if next.over(now) {
                            next.result()
                        } else {
                            CollectDuty::Receive
                        },
                    )
                },
            },
        }
    }
}

impl Collector {
    /// No answers yet.
    pub fn new(now: u128) -> (r: Collector)
        ensures
            r@ == (Collected { started: now, fields: Seq::empty() }),
    {
        let fields: Vec<(String, Json)> = Vec::new();
        assert(fields_of(fields@) =~= Seq::empty());
        Collector { started: now, fields }
    }

    fn result(&self) -> (r: CollectAction)
        ensures
            r@ == self@.result(),
    {
        if self.fields.len() == 0 {
            CollectAction::Failed(DeviceError::NoDps)
        } else {
            let all = Json::Object(duplicate_fields(&self.fields));
            assert(all@->Object_0 =~= self@.fields);
            CollectAction::Done(all)
        }
    }

    /// Decides what is to be done after an event.
    pub fn request_all_dps(&mut self, dev: &TuyaDevice, event: CollectEvent) -> (r: CollectAction)
        ensures
            (final(self)@, r@) == old(self)@.after(dev@, event@),
    {
        match event {
            CollectEvent::Silence => self.result(),
            CollectEvent::Received { data, now } => match dev.recv_one(data.as_slice()) {
                None => CollectAction::Fatal,
                Some(Err(e)) => CollectAction::Failed(DeviceError::Protocol(e)),
                Some(Ok(dps)) => {
                    if let Some(dps) = dps {
                        add_dps(&mut self.fields, &dps);
                    }
                    if now > self.started && now - self.started > COLLECT_NANOS {
                        self.result()
                    } else {
                        CollectAction::Receive
                    }
                },
            },
        }
    }
}

// ── The query ──

/// A query under way.
#[derive(Debug)]
pub struct Query {
    /// What the query itself has given.
    pub fields: Vec<(String, Json)>,
    pub collector: Collector,
}

/// A [`Query`] with its fields taken by their view.
pub ghost struct Asked {
    pub fields: Fields,
    pub collector: Collected,
}

impl View for Query {
    type V = Asked;

    open spec fn view(&self) -> Asked {
        Asked { fields: fields_of(self.fields@), collector: self.collector@ }
    }
}

/// What happened in a query.
#[derive(Debug)]
pub enum QueryEvent {
    /// The query begins.
    Start { now_secs: u64 },
    /// The device has answered the query.
    Answer { resp: Vec<u8> },
    /// The update request was sent.
    RequestSent { now: u128 },
    /// The update request could not be sent.
    RequestLost,
    /// The device has sent something, or nothing came in time.
    Collect(CollectEvent),
}

/// A [`QueryEvent`] with its bytes taken by their view.
pub ghost enum QueryNews {
    Start { now_secs: u64 },
    Answer { resp: Seq<u8> },
    RequestSent { now: u128 },
    RequestLost,
    Collect(CollectNews),
}

impl View for QueryEvent {
    type V = QueryNews;

    open spec fn view(&self) -> QueryNews {
        match self {
            QueryEvent::Start { now_secs } => QueryNews::Start { now_secs: *now_secs },
            QueryEvent::Answer { resp } => QueryNews::Answer { resp: resp@ },
            QueryEvent::RequestSent { now } => QueryNews::RequestSent { now: *now },
            QueryEvent::RequestLost => QueryNews::RequestLost,
            QueryEvent::Collect(event) => QueryNews::Collect(event@),
        }
    }
}

/// What is to be done in a query.
#[derive(Debug)]
pub enum QueryAction {
    /// Send the query and wait for the answer.
    Ask(Vec<u8>),
    /// Send the update request.
    Request(Vec<u8>),
    /// Wait for the next message.
    Receive,
    /// These are the data points.
    Done(Json),
    /// Give up.
    Failed(DeviceError),
    /// Stop: the message cannot be built or taken apart.
    Fatal,
}

/// A [`QueryAction`] with its data taken by their view.
pub ghost enum QueryDuty {
    Ask(Seq<u8>),
    Request(Seq<u8>),
    Receive,
    Done(JsonModel),
    Failed(DeviceFault),
    Fatal,
}

impl View for QueryAction {
    type V = QueryDuty;

    open spec fn view(&self) -> QueryDuty {
        match self {
            QueryAction::Ask(msg) => QueryDuty::Ask(msg@),
            QueryAction::Request(msg) => QueryDuty::Request(msg@),
            QueryAction::Receive => QueryDuty::Receive,
            QueryAction::Done(dps) => QueryDuty::Done(dps@),
            QueryAction::Failed(e) => QueryDuty::Failed(e@),
            QueryAction::Fatal => QueryDuty::Fatal,
        }
    }
}

/// What the answer to a query comes to: its data points; nothing for an answer that cannot be
/// taken apart.
pub open spec fn answered_dps(dev: Device, resp: Seq<u8>) -> Option<Result<JsonModel, DeviceFault>> {
    match dev.answer(resp) {
        None => None,
        Some(Err(e)) => Some(Err(DeviceFault::Protocol(e))),
        Some(Ok((_, payload))) => match dps_read(payload) {
            Ok(dps) => Some(Ok(dps)),
            Err(e) => Some(Err(DeviceFault::Dps(e))),
        },
    }
}

/// What is to be done in a query after an event, and the query and the device from then on.
pub open spec fn queried(asked: Asked, dev: Device, news: QueryNews, ticks: u64) -> (
    Asked,
    Device,
    QueryDuty,
) {
    match news {
        QueryNews::Start { now_secs } => match dev.commanded(state_query(dev, now_secs), ticks) {
            Some((next, msg)) => (asked, next, QueryDuty::Ask(msg)),
            None => (asked, dev, QueryDuty::Fatal),
        },
        QueryNews::Answer { resp } => match answered_dps(dev, resp) {
            None => (asked, dev, QueryDuty::Fatal),
            Some(Err(e)) => (asked, dev, QueryDuty::Failed(e)),
            Some(Ok(initial)) => {
                let known = Asked { fields: with_dps(asked.fields, Some(initial)), ..asked };
                match dev.commanded(
                    (CMD_UPDATEDPS, json_bytes(update_request(dp_list()))),
                    ticks,
                ) {
                    Some((next, msg)) => (known, next, QueryDuty::Request(msg)),
                    None => (known, dev, QueryDuty::Fatal),
                }
            },
        },
        QueryNews::RequestSent { now } => (
            Asked { collector: Collected { started: now, fields: Seq::empty() }, ..asked },
            dev,
            QueryDuty::Receive,
        ),
        QueryNews::RequestLost => (asked, dev, QueryDuty::Done(JsonModel::Object(asked.fields))),
        QueryNews::Collect(event) => {
            let (collector, duty) = asked.collector.after(dev, event);
            let next = Asked { collector, ..asked };
            match duty {
                CollectDuty::Receive => (next, dev, QueryDuty::Receive),
                CollectDuty::Done(all) => {
                    let fields = with_dps(asked.fields, Some(all));
                    (
                        Asked { fields, ..next },
                        dev,
                        QueryDuty::Done(JsonModel::Object(fields)),
                    )
                },
                CollectDuty::Failed(_) => (
                    next,
                    dev,
                    QueryDuty::Done(JsonModel::Object(asked.fields)),
                ),
                CollectDuty::Fatal => (next, dev, QueryDuty::Fatal),
            }
        },
    }
}

/// Answers are collected for eight seconds from the request on: a message that was taken by then
/// is followed by the next, a later one is the last. A message that cannot be taken ends the
/// collection at once, and changes nothing.
pub proof fn answers_are_collected_for_eight_seconds(
    collected: Collected,
    dev: Device,
    data: Seq<u8>,
    now: u128,
)
    ensures
        ({
            let (next, duty) = collected.after(dev, CollectNews::Received { data, now });
            &&& next.started == collected.started
            &&& (pushed_dps(dev, data) matches Some(Ok(_))) ==> (duty is Receive <==> now
                - collected.started <= 8_000_000_000)
            &&& (pushed_dps(dev, data) matches Some(Ok(_))) ==> (now - collected.started
                > 8_000_000_000 ==> duty == (if next.fields.len() == 0 {
                CollectDuty::Failed(DeviceFault::NoDps)
            } else {
                CollectDuty::Done(JsonModel::Object(next.fields))
            }))
            &&& pushed_dps(dev, data) matches Some(Err(e)) ==> next == collected && duty
                == CollectDuty::Failed(DeviceFault::Protocol(e))
            &&& pushed_dps(dev, data) is None ==> next == collected && duty == CollectDuty::Fatal
        }),
        collected.fields.len() == 0 ==> collected.after(dev, CollectNews::Silence).1
            == CollectDuty::Failed(DeviceFault::NoDps),
        collected.fields.len() > 0 ==> collected.after(dev, CollectNews::Silence).1
            == CollectDuty::Done(JsonModel::Object(collected.fields)),
{
}

/// The data points in a message are those that its payload holds; a message whose payload is no
/// JSON, or that has none, brings none and is no error.
pub proof fn payloads_bring_data_points(dev: Device, resp: Seq<u8>, payload: Seq<u8>)
    ensures
        dev.push(resp) == Some(Ok::<Option<Seq<u8>>, ProtocolError>(Some(payload))) ==> pushed_dps(
            dev,
            resp,
        ) == Some(
            Ok::<Option<JsonModel>, ProtocolError>(
                match dps_read(payload) {
                    Ok(dps) => Some(dps),
                    Err(_) => None,
                },
            ),
        ),
        dev.push(resp) == Some(Ok::<Option<Seq<u8>>, ProtocolError>(None)) ==> pushed_dps(dev, resp)
            == Some(Ok::<Option<JsonModel>, ProtocolError>(None)),
        dev.push(resp) is None <==> pushed_dps(dev, resp) is None,
        dev.push(resp) matches Some(Err(e)) ==> pushed_dps(dev, resp) == Some(
            Err::<Option<JsonModel>, ProtocolError>(e),
        ),
{
}

/// Only an object brings data points.
pub proof fn only_objects_bring_data_points(fields: Fields, dps: JsonModel, key: Seq<char>)
    ensures
        dps matches JsonModel::Object(more) ==> field(with_dps(fields, Some(dps)), key) == (
        match last_value(more, key) {
            Some(v) => Some(v),
            None => field(fields, key),
        }),
        !(dps is Object) ==> with_dps(fields, Some(dps)) == fields,
        with_dps(fields, None) == fields,
{
    if let JsonModel::Object(more) = dps {
        merging_sets_last_values(fields, more, key);
    }
}

/// A message that brings data points gives each of them its value, the last where it names one
/// more than once; the other data points keep theirs.
pub proof fn later_answers_come_first(
    collected: Collected,
    dev: Device,
    data: Seq<u8>,
    now: u128,
    more: Fields,
    key: Seq<char>,
)
    requires
        pushed_dps(dev, data) == Some(
            Ok::<Option<JsonModel>, ProtocolError>(Some(JsonModel::Object(more))),
        ),
    ensures
        field(collected.after(dev, CollectNews::Received { data, now }).0.fields, key) == (
        match last_value(more, key) {
            Some(v) => Some(v),
            None => field(collected.fields, key),
        }),
{
    merging_sets_last_values(collected.fields, more, key);
}

/// Whether an event ends the collection: silence, or a message that was taken when the time is
/// over.
pub open spec fn ends_collection(collected: Collected, dev: Device, event: CollectNews) -> bool {
    match event {
        CollectNews::Silence => true,
        CollectNews::Received { data, now } => pushed_dps(dev, data) matches Some(Ok(_))
            && collected.over(now),
    }
}

/// What a query ends with: each data point has the value of the gathered update, or, where the
/// update has not brought it, that of the first answer.
pub proof fn updates_come_first(
    asked: Asked,
    dev: Device,
    event: CollectNews,
    ticks: u64,
    key: Seq<char>,
)
    requires
        distinct_keys(asked.collector.fields),
        ends_collection(asked.collector, dev, event),
    ensures
        ({
            let (next, _, duty) = queried(asked, dev, QueryNews::Collect(event), ticks);
            duty matches QueryDuty::Done(JsonModel::Object(all)) && field(all, key) == (match field(
                next.collector.fields,
                key,
            ) {
                Some(v) => Some(v),
                None => field(asked.fields, key),
            })
        }),
{
    let gathered = asked.collector.after(dev, event).0.fields;
    if let CollectNews::Received { data, .. } = event {
        if let Some(Ok(Some(JsonModel::Object(more)))) = pushed_dps(dev, data) {
            merging_keeps_keys_distinct(asked.collector.fields, more);
        }
    }
    merging_sets_last_values(asked.fields, gathered, key);
    distinct_keys_have_one_value(gathered, key);
}

/// A query begins with the question for the state. A good answer, whose data points are taken
/// over, leads to the request for an update, command 18 for all data points; a bad one ends the
/// query.
pub proof fn answers_lead_to_updates(
    asked: Asked,
    dev: Device,
    now_secs: u64,
    resp: Seq<u8>,
    ticks: u64,
    key: Seq<char>,
)
    ensures
        match dev.commanded(state_query(dev, now_secs), ticks) {
            Some((next, msg)) => queried(asked, dev, QueryNews::Start { now_secs }, ticks) == (
                asked,
                next,
                QueryDuty::Ask(msg),
            ),
            None => queried(asked, dev, QueryNews::Start { now_secs }, ticks) == (
                asked,
                dev,
                QueryDuty::Fatal,
            ),
        },
        ({
            let (next, after, duty) = queried(asked, dev, QueryNews::Answer { resp }, ticks);
            match answered_dps(dev, resp) {
                None => duty == QueryDuty::Fatal && next == asked && after == dev,
                Some(Err(e)) => duty == QueryDuty::Failed(e) && next == asked && after == dev,
                Some(Ok(dps)) => {
                    &&& next.collector == asked.collector
                    &&& !(dps is Object) ==> next.fields == asked.fields
                    &&& dps matches JsonModel::Object(more) ==> field(next.fields, key) == (
                    match last_value(more, key) {
                        Some(v) => Some(v),
                        None => field(asked.fields, key),
                    })
                    &&& match dev.commanded(
                        (18u32, json_bytes(update_request(dp_list()))),
                        ticks,
                    ) {
                        Some((sent, msg)) => after == sent && duty == QueryDuty::Request(msg),
                        None => after == dev && duty == QueryDuty::Fatal,
                    }
                },
            }
        }),
{
    if let Some(Ok(dps)) = answered_dps(dev, resp) {
        only_objects_bring_data_points(asked.fields, dps, key);
    }
}

/// What an answer holds is what its payload holds.
pub proof fn answers_hold_their_payload(dev: Device, resp: Seq<u8>, cmd: u32, payload: Seq<u8>)
    requires
        dev.answer(resp) == Some(Ok::<(u32, Seq<u8>), ProtocolError>((cmd, payload))),
    ensures
        dps_read(payload) matches Ok(dps) ==> answered_dps(dev, resp) == Some(
            Ok::<JsonModel, DeviceFault>(dps),
        ),
        dps_read(payload) matches Err(e) ==> answered_dps(dev, resp) == Some(
            Err::<JsonModel, DeviceFault>(DeviceFault::Dps(e)),
        ),
{
}

/// An answer that the device's message does not hold is refused for the reason for which the
/// message is, or cannot be taken apart.
pub proof fn bad_answers_are_refused(dev: Device, resp: Seq<u8>)
    ensures
        dev.answer(resp) is None <==> answered_dps(dev, resp) is None,
        dev.answer(resp) matches Some(Err(e)) ==> answered_dps(dev, resp) == Some(
            Err::<JsonModel, DeviceFault>(DeviceFault::Protocol(e)),
        ),
{
}

/// A query goes on as long as answers are collected, and nothing of the first answer changes until
/// then; it stops where the collection does. The device is left as it is.
pub proof fn queries_wait_for_the_collection(
    asked: Asked,
    dev: Device,
    data: Seq<u8>,
    now: u128,
    ticks: u64,
)
    ensures
        ({
            let event = CollectNews::Received { data, now };
            let (next, after, duty) = queried(asked, dev, QueryNews::Collect(event), ticks);
            &&& after == dev
            &&& next.collector == asked.collector.after(dev, event).0
            &&& pushed_dps(dev, data) is None ==> duty == QueryDuty::Fatal && next == asked
            &&& (pushed_dps(dev, data) matches Some(Ok(_))) && now - asked.collector.started
                <= 8_000_000_000 ==> duty == QueryDuty::Receive && next.fields == asked.fields
            &&& (pushed_dps(dev, data) matches Some(Ok(_))) && now - asked.collector.started
                > 8_000_000_000 ==> duty == QueryDuty::Done(JsonModel::Object(next.fields))
            &&& (pushed_dps(dev, data) matches Some(Ok(None))) ==> next.collector == asked.collector
        }),
        queried(asked, dev, QueryNews::Collect(CollectNews::Silence), ticks).2 == QueryDuty::Done(
            JsonModel::Object(
                queried(asked, dev, QueryNews::Collect(CollectNews::Silence), ticks).0.fields,
            ),
        ),
        asked.collector.fields.len() == 0 ==> queried(
            asked,
            dev,
            QueryNews::Collect(CollectNews::Silence),
            ticks,
        ).0 == asked,
{
}

/// After the request for an update the answers are collected anew, from its moment on. Where it
/// was not sent, or an answer to it cannot be taken, the query ends with the first answer.
pub proof fn lost_updates_leave_the_first_answer(
    asked: Asked,
    dev: Device,
    now: u128,
    data: Seq<u8>,
    e: ProtocolError,
    ticks: u64,
)
    ensures
        queried(asked, dev, QueryNews::RequestLost, ticks).2 == QueryDuty::Done(
            JsonModel::Object(asked.fields),
        ),
        ({
            let (next, after, duty) = queried(asked, dev, QueryNews::RequestSent { now }, ticks);
            &&& duty == QueryDuty::Receive
            &&& after == dev
            &&& next.fields == asked.fields
            &&& next.collector.started == now
            &&& next.collector.fields.len() == 0
        }),
        pushed_dps(dev, data) == Some(Err::<Option<JsonModel>, ProtocolError>(e)) ==> queried(
            asked,
            dev,
            QueryNews::Collect(CollectNews::Received { data, now }),
            ticks,
        ).2 == QueryDuty::Done(JsonModel::Object(asked.fields)),
{
}

/// No data point occurs twice in what a query has gathered.
pub proof fn gathered_keys_are_distinct(asked: Asked, dev: Device, news: QueryNews, ticks: u64)
    requires
        distinct_keys(asked.fields),
        distinct_keys(asked.collector.fields),
    ensures
        distinct_keys(queried(asked, dev, news, ticks).0.fields),
        distinct_keys(queried(asked, dev, news, ticks).0.collector.fields),
{
    match news {
        QueryNews::Answer { resp } => {
            if let Some(Ok(JsonModel::Object(more))) = answered_dps(dev, resp) {
                merging_keeps_keys_distinct(asked.fields, more);
            }
        },
        QueryNews::Collect(event) => {
            if let CollectNews::Received { data, .. } = event {
                if let Some(Ok(Some(JsonModel::Object(more)))) = pushed_dps(dev, data) {
                    merging_keeps_keys_distinct(asked.collector.fields, more);
                }
            }
            let (collector, _) = asked.collector.after(dev, event);
            merging_keeps_keys_distinct(asked.fields, collector.fields);
        },
        _ => {},
    }
}

impl TuyaDevice {
    /// Reads the answer to a query.
    pub fn read_answer(&self, resp: &[u8]) -> (r: Option<Result<Json, DeviceError>>)
        ensures
            answered_dps(self@, resp@) == (match r {
                None => None,
                Some(Ok(dps)) => Some(Ok::<JsonModel, DeviceFault>(dps@)),
                Some(Err(e)) => Some(Err::<JsonModel, DeviceFault>(e@)),
            }),
            r matches Some(Ok(dps)) ==> keys_differ(dps@),
    {
        match self.open_answer(resp) {
            None => None,
            Some(Err(e)) => Some(Err(DeviceError::Protocol(e))),
            Some(Ok((_, payload))) => match parse_dps_response(payload.as_slice()) {
                Ok(dps) => Some(Ok(dps)),
                Err(e) => Some(Err(DeviceError::Dps(e))),
            },
        }
    }
}

impl Query {
    /// A query that has given nothing yet.
    pub fn new() -> (r: Query)
        ensures
            r@ == (Asked {
                fields: Seq::empty(),
                collector: Collected { started: 0, fields: Seq::empty() },
            }),
    {
        let fields: Vec<(String, Json)> = Vec::new();
        assert(fields_of(fields@) =~= Seq::empty());
        Query { fields, collector: Collector::new(0) }
    }

    fn known(&self) -> (r: Json)
        ensures
            r@ == JsonModel::Object(self@.fields),
    {
        let all = Json::Object(duplicate_fields(&self.fields));
        assert(all@->Object_0 =~= self@.fields);
        all
    }

    /// Decides what is to be done after an event.
    pub fn query_dps(&mut self, dev: &mut TuyaDevice, event: QueryEvent, ticks: u64) -> (r:
        QueryAction)
        ensures
            (final(self)@, final(dev)@, r@) == queried(old(self)@, old(dev)@, event@, ticks),
    {
        match event {
            QueryEvent::Start { now_secs } => match dev.query_message(now_secs, ticks) {
                Some(msg) => QueryAction::Ask(msg),
                None => QueryAction::Fatal,
            },
            QueryEvent::Answer { resp } => match dev.read_answer(resp.as_slice()) {
                None => QueryAction::Fatal,
                Some(Err(e)) => QueryAction::Failed(e),
                Some(Ok(initial)) => {
                    add_dps(&mut self.fields, &initial);
                    match dev.update_message(ticks) {
                        Some(msg) => QueryAction::Request(msg),
                        None => QueryAction::Fatal,
                    }
                },
            },
            QueryEvent::RequestSent { now } => {
                self.collector = Collector::new(now);
                QueryAction::Receive
            },
            QueryEvent::RequestLost => QueryAction::Done(self.known()),
            QueryEvent::Collect(event) => match self.collector.request_all_dps(dev, event) {
                CollectAction::Receive => QueryAction::Receive,
                CollectAction::Done(all) => {
                    add_dps(&mut self.fields, &all);
                    QueryAction::Done(self.known())
                },
                CollectAction::Failed(_) => QueryAction::Done(self.known()),
                CollectAction::Fatal => QueryAction::Fatal,
            },
        }
    }
}

} // verus!
