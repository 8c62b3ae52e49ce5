//! JSON values, and their text, which `serde_json` reads and writes.

use crate::text::same_text;
use serde::Deserialize;
use serde_json::{Deserializer, Number, Value};
use vstd::prelude::*;

verus! {

/// The numbers of `serde_json`. They are carried, not looked into.
#[verifier::external_type_specification]
#[verifier::external_body]
pub struct ExNumber(serde_json::Number);

/// The values of `serde_json`.
#[verifier::external_type_specification]
#[verifier::external_body]
pub struct ExValue(serde_json::Value);

/// A JSON value. The fields of an object keep their order.
#[derive(Debug)]
pub enum Json {
    Null,
    Bool(bool),
    Number(Number),
    Str(String),
    Array(Vec<Json>),
    Object(Vec<(String, Json)>),
}

/// What a JSON value stands for.
pub ghost enum JsonModel {
    Null,
    Bool(bool),
    Number(Number),
    Str(Seq<char>),
    Array(Seq<JsonModel>),
    Object(Seq<(Seq<char>, JsonModel)>),
}

/// The fields of an object, in their order.
pub type Fields = Seq<(Seq<char>, JsonModel)>;

impl Json {
    /// What this value stands for.
    pub open spec fn model(self) -> JsonModel
        decreases self,
    {
        match self {
            Json::Null => JsonModel::Null,
            Json::Bool(b) => JsonModel::Bool(b),
            Json::Number(n) => JsonModel::Number(n),
            Json::Str(s) => JsonModel::Str(s@),
            Json::Array(items) => JsonModel::Array(
                Seq::new(
                    items@.len(),
                    |i: int|
                        if 0 <= i < items@.len() {
                            items@[i].model()
                        } else {
                            JsonModel::Null
                        },
                ),
            ),
            Json::Object(fields) => JsonModel::Object(
                Seq::new(
                    fields@.len(),
                    |i: int|
                        if 0 <= i < fields@.len() {
                            (fields@[i].0@, fields@[i].1.model())
                        } else {
                            (Seq::empty(), JsonModel::Null)
                        },
                ),
            ),
        }
    }
}

impl View for Json {
    type V = JsonModel;

    open spec fn view(&self) -> JsonModel {
        self.model()
    }
}

/// The values of a list.
pub open spec fn items_of(items: Seq<Json>) -> Seq<JsonModel> {
    Seq::new(items.len(), |i: int| items[i]@)
}

/// The fields of an object.
pub open spec fn fields_of(fields: Seq<(String, Json)>) -> Fields {
    Seq::new(fields.len(), |i: int| (fields[i].0@, fields[i].1@))
}

// ── Fields ──

/// The place of the first field with a key.
pub open spec fn key_at(fields: Fields, key: Seq<char>) -> Option<int>
    decreases fields.len(),
{
    if fields.len() == 0 {
        None
    } else if fields[0].0 == key {
        Some(0)
    } else {
        match key_at(fields.skip(1), key) {
            Some(i) => Some(i + 1),
            None => None,
        }
    }
}

/// The value of the field with a key.
pub open spec fn field(fields: Fields, key: Seq<char>) -> Option<JsonModel> {
    match key_at(fields, key) {
        Some(i) => Some(fields[i].1),
        None => None,
    }
}

/// The fields with one of them set: in its place where the key is there, else at the end.
pub open spec fn put(fields: Fields, key: Seq<char>, value: JsonModel) -> Fields {
    match key_at(fields, key) {
        Some(i) => fields.update(i, (key, value)),
        None => fields.push((key, value)),
    }
}

/// The fields with others set, one after the other.
pub open spec fn merged(fields: Fields, more: Fields) -> Fields
    decreases more.len(),
{
    if more.len() == 0 {
        fields
    } else {
        put(merged(fields, more.drop_last()), more.last().0, more.last().1)
    }
}

/// What [`key_at`] gives is the place of the key, with none before it.
pub proof fn key_at_is_first(fields: Fields, key: Seq<char>)
    ensures
        match key_at(fields, key) {
            Some(i) => 0 <= i < fields.len() && fields[i].0 == key && forall|k: int|
                0 <= k < i ==> (#[trigger] fields[k]).0 != key,
            None => forall|k: int| 0 <= k < fields.len() ==> (#[trigger] fields[k]).0 != key,
        },
    decreases fields.len(),
{
    if fields.len() > 0 && fields[0].0 != key {
        key_at_is_first(fields.skip(1), key);
        assert forall|k: int| 0 < k < fields.len() implies #[trigger] fields[k] == fields.skip(
            1,
        )[k - 1] by {}
    }
}

/// A place with the key and none before it is what [`key_at`] gives.
pub proof fn first_key(fields: Fields, key: Seq<char>, i: int)
    requires
        0 <= i < fields.len(),
        fields[i].0 == key,
        forall|k: int| 0 <= k < i ==> (#[trigger] fields[k]).0 != key,
    ensures
        key_at(fields, key) == Some(i),
{
    key_at_is_first(fields, key);
    let j = key_at(fields, key)->0;
    assert(fields[i].0 == key);
    assert(fields[j].0 == key);
}

/// A field that was set has the value that it was set to, and every other field keeps its own.
pub proof fn set_fields_read_back(fields: Fields, key: Seq<char>, value: JsonModel, other: Seq<char>)
    ensures
        field(put(fields, key, value), other) == (if other == key {
            Some(value)
        } else {
            field(fields, other)
        }),
{
    let after = put(fields, key, value);
    key_at_is_first(fields, key);
    key_at_is_first(fields, other);
    key_at_is_first(after, other);
    match key_at(fields, key) {
        Some(i) => {
            if other == key {
                first_key(after, key, i);
            } else {
                match key_at(fields, other) {
                    Some(j) => {
                        assert forall|k: int| 0 <= k < j implies (#[trigger] after[k]).0 != other by {
                            assert(fields[k].0 != other);
                        }
                        first_key(after, other, j);
                    },
                    None => {
                        if let Some(j) = key_at(after, other) {
                            assert(fields[j].0 == after[j].0);
                        }
                    },
                }
            }
        },
        None => {
            if other == key {
                assert forall|k: int| 0 <= k < fields.len() implies (#[trigger] after[k]).0
                    != key by {
                    assert(fields[k].0 != key);
                }
                first_key(after, key, fields.len() as int);
            } else {
                match key_at(fields, other) {
                    Some(j) => {
                        assert forall|k: int| 0 <= k < j implies (#[trigger] after[k]).0 != other by {
                            assert(fields[k].0 != other);
                        }
                        first_key(after, other, j);
                    },
                    None => {
                        if let Some(j) = key_at(after, other) {
                            if j < fields.len() {
                                assert(fields[j].0 == other);
                            }
                        }
                    },
                }
            }
        },
    }
}

/// Setting a field moves no other: a key that is there keeps its place, and a new one comes last.
pub proof fn set_fields_keep_their_place(fields: Fields, key: Seq<char>, value: JsonModel)
    ensures
        (forall|k: int| 0 <= k < fields.len() ==> (#[trigger] fields[k]).0 != key) ==> put(
            fields,
            key,
            value,
        ) == fields.push((key, value)),
        (exists|k: int| 0 <= k < fields.len() && (#[trigger] fields[k]).0 == key) ==> put(
            fields,
            key,
            value,
        ).len() == fields.len(),
        forall|k: int|
            0 <= k < fields.len() ==> (#[trigger] put(fields, key, value)[k]).0 == fields[k].0 && (
            fields[k].0 != key ==> put(fields, key, value)[k] == fields[k]),
{
    key_at_is_first(fields, key);
}

/// What is found under a key of a value is the value of the first field with that key; only
/// objects have fields.
pub proof fn keys_are_looked_up(m: JsonModel, key: Seq<char>)
    ensures
        match get_in(m, key) {
            Some(v) => exists|fields: Fields, i: int|
                m == JsonModel::Object(fields) && 0 <= i < fields.len() && #[trigger] fields[i] == (
                    key,
                    v,
                ) && forall|k: int| 0 <= k < i ==> (#[trigger] fields[k]).0 != key,
            None => forall|fields: Fields, k: int|
                m == JsonModel::Object(fields) && 0 <= k < fields.len() ==> (
                #[trigger] fields[k]).0 != key,
        },
{
    if let JsonModel::Object(fields) = m {
        key_at_is_first(fields, key);
        if let Some(i) = key_at(fields, key) {
            assert(fields[i] == (key, fields[i].1));
        }
    }
}

/// Whether no key occurs twice.
pub open spec fn distinct_keys(fields: Fields) -> bool {
    forall|i: int, j: int|
        0 <= i < j < fields.len() ==> (#[trigger] fields[i]).0 != (#[trigger] fields[j]).0
}

/// Setting fields one after the other keeps the keys distinct.
pub proof fn merging_keeps_keys_distinct(fields: Fields, more: Fields)
    requires
        distinct_keys(fields),
    ensures
        distinct_keys(merged(fields, more)),
    decreases more.len(),
{
    if more.len() > 0 {
        merging_keeps_keys_distinct(fields, more.drop_last());
        key_at_is_first(merged(fields, more.drop_last()), more.last().0);
    }
}

/// The value of the last field with a key.
pub open spec fn last_value(fields: Fields, key: Seq<char>) -> Option<JsonModel>
    decreases fields.len(),
{
    if fields.len() == 0 {
        None
    } else if fields.last().0 == key {
        Some(fields.last().1)
    } else {
        last_value(fields.drop_last(), key)
    }
}

/// When fields are set one after the other, each ends with the value that it was set to last, and
/// a field that was not set keeps its own.
pub proof fn merging_sets_last_values(fields: Fields, more: Fields, key: Seq<char>)
    ensures
        field(merged(fields, more), key) == (match last_value(more, key) {
            Some(v) => Some(v),
            None => field(fields, key),
        }),
    decreases more.len(),
{
    if more.len() > 0 {
        let init = more.drop_last();
        merging_sets_last_values(fields, init, key);
        set_fields_read_back(merged(fields, init), more.last().0, more.last().1, key);
    }
}

/// Where no key occurs twice, the last field with a key is the first one.
pub proof fn distinct_keys_have_one_value(fields: Fields, key: Seq<char>)
    requires
        distinct_keys(fields),
    ensures
        last_value(fields, key) == field(fields, key),
    decreases fields.len(),
{
    if fields.len() > 0 {
        let init = fields.drop_last();
        let last = fields.len() - 1;
        assert(distinct_keys(init));
        distinct_keys_have_one_value(init, key);
        key_at_is_first(init, key);
        key_at_is_first(fields, key);
        if fields[last].0 == key {
            first_key(fields, key, last);
        } else {
            match key_at(init, key) {
                Some(i) => {
                    assert forall|k: int| 0 <= k < i implies (#[trigger] fields[k]).0 != key by {
                        assert(init[k].0 != key);
                    }
                    assert(fields[i] == init[i]);
                    first_key(fields, key, i);
                },
                None => {
                    if let Some(i) = key_at(fields, key) {
                        assert(init[i] == fields[i]);
                    }
                },
            }
        }
    }
}

// ── Values ──

/// `Clone` of `serde_json::Number`: the same number.
pub assume_specification[ <serde_json::Number as Clone>::clone ](n: &serde_json::Number) -> (r:
    serde_json::Number)
    ensures
        r == *n,
;

/// The number of `serde_json` for a whole number.
pub uninterp spec fn whole_number(n: int) -> Number;

/// `Number::from_i128` of `serde_json`, which succeeds on every whole number from the least
/// `i64` to the greatest `u64`: a function of its argument.
#[verifier::external_body]
fn number_of(n: i128) -> (r: Number)
    requires
        i64::MIN <= n <= u64::MAX,
    ensures
        r == whole_number(n as int),
{
    Number::from_i128(n).unwrap()
}

impl Json {
    /// The value for a whole number.
    pub fn whole(n: i128) -> (r: Json)
        requires
            i64::MIN <= n <= u64::MAX,
        ensures
            r@ == JsonModel::Number(whole_number(n as int)),
    {
        Json::Number(number_of(n))
    }

    /// The value for a text.
    pub fn text(s: &str) -> (r: Json)
        ensures
            r@ == JsonModel::Str(s@),
    {
        Json::Str(s.to_string())
    }

    /// A copy of this value.
    pub fn duplicate(&self) -> (r: Json)
        ensures
            r@ == self@,
        decreases self,
    {
        match self {
            Json::Null => Json::Null,
            Json::Bool(b) => Json::Bool(*b),
            Json::Number(n) => Json::Number(n.clone()),
            Json::Str(s) => Json::Str(s.clone()),
            Json::Array(items) => {
                let r = Json::Array(duplicate_items(items));
                assert(r@->Array_0 =~= items_of(r->Array_0@));
                assert(self@->Array_0 =~= items_of(items@));
                r
            },
            Json::Object(fields) => {
                let r = Json::Object(duplicate_fields(fields));
                assert(r@->Object_0 =~= fields_of(r->Object_0@));
                assert(self@->Object_0 =~= fields_of(fields@));
                r
            },
        }
    }
}

/// A copy of a list.
pub fn duplicate_items(items: &Vec<Json>) -> (r: Vec<Json>)
    ensures
        items_of(r@) == items_of(items@),
    decreases items,
{
    let mut out: Vec<Json> = Vec::new();
    let mut i: usize = 0;
    while i < items.len()
        invariant
            i <= items@.len(),
            out@.len() == i,
            forall|k: int| 0 <= k < i ==> (#[trigger] out@[k])@ == items@[k]@,
        decreases items@.len() - i,
    {
        out.push(items[i].duplicate());
        i = i + 1;
    }
    assert(items_of(out@) =~= items_of(items@));
    out
}

/// A copy of fields.
pub fn duplicate_fields(fields: &Vec<(String, Json)>) -> (r: Vec<(String, Json)>)
    ensures
        fields_of(r@) == fields_of(fields@),
    decreases fields,
{
    let mut out: Vec<(String, Json)> = Vec::new();
    let mut i: usize = 0;
    while i < fields.len()
        invariant
            i <= fields@.len(),
            out@.len() == i,
            forall|k: int| 0 <= k < i ==> (#[trigger] out@[k]).0@ == fields@[k].0@,
            forall|k: int| 0 <= k < i ==> (#[trigger] out@[k]).1@ == fields@[k].1@,
        decreases fields@.len() - i,
    {
        out.push((fields[i].0.clone(), fields[i].1.duplicate()));
        i = i + 1;
    }
    assert(fields_of(out@) =~= fields_of(fields@));
    out
}

// ── Looking into values ──

/// The field of an object with a key; other values have none.
pub open spec fn get_in(m: JsonModel, key: Seq<char>) -> Option<JsonModel> {
    match m {
        JsonModel::Object(fields) => field(fields, key),
        _ => None,
    }
}

/// The view of an optional value.
pub open spec fn json_view(r: Option<&Json>) -> Option<JsonModel> {
    match r {
        Some(j) => Some(j@),
        None => None,
    }
}

/// The place of the first field with a key.
pub fn find_key(fields: &Vec<(String, Json)>, key: &str) -> (r: Option<usize>)
    ensures
        match key_at(fields_of(fields@), key@) {
            Some(i) => r matches Some(k) && k == i && 0 <= i < fields@.len(),
            None => r is None,
        },
{
    let ghost all = fields_of(fields@);
    let mut i: usize = 0;
    while i < fields.len()
        invariant
            i <= fields@.len(),
            all == fields_of(fields@),
            forall|k: int| 0 <= k < i ==> (#[trigger] all[k]).0 != key@,
        decreases fields@.len() - i,
    {
        if same_text(fields[i].0.as_str(), key) {
            proof {
                assert(all[i as int].0 == key@);
                first_key(all, key@, i as int);
            }
            return Some(i);
        }
        assert(all[i as int].0 != key@);
        i = i + 1;
    }
    proof {
        key_at_is_first(all, key@);
    }
    None
}

impl Json {
    /// The field of an object with a key.
    pub fn get(&self, key: &str) -> (r: Option<&Json>)
        ensures
            json_view(r) == get_in(self@, key@),
    {
        match self {
            Json::Object(fields) => {
                assert(self@->Object_0 =~= fields_of(fields@));
                match find_key(fields, key) {
                    Some(i) => Some(&fields[i].1),
                    None => None,
                }
            },
            _ => None,
        }
    }

    /// The truth value that this is.
    pub fn as_bool(&self) -> (r: Option<bool>)
        ensures
            r == (match self@ {
                JsonModel::Bool(b) => Some(b),
                _ => None,
            }),
    {
        match self {
            Json::Bool(b) => Some(*b),
            _ => None,
        }
    }

    /// The text that this is.
    pub fn as_str(&self) -> (r: Option<&str>)
        ensures
            match self@ {
                JsonModel::Str(s) => r matches Some(t) && t@ == s,
                _ => r is None,
            },
    {
        match self {
            Json::Str(s) => Some(s.as_str()),
            _ => None,
        }
    }

    /// The number that this is.
    pub fn as_number(&self) -> (r: Option<&Number>)
        ensures
            match self@ {
                JsonModel::Number(n) => r matches Some(m) && *m == n,
                _ => r is None,
            },
    {
        match self {
            Json::Number(n) => Some(n),
            _ => None,
        }
    }

    /// The fields of the object that this is.
    pub fn as_object(&self) -> (r: Option<&Vec<(String, Json)>>)
        ensures
            match self@ {
                JsonModel::Object(fields) => r matches Some(v) && fields_of(v@) == fields,
                _ => r is None,
            },
    {
        match self {
            Json::Object(fields) => {
                assert(self@->Object_0 =~= fields_of(fields@));
                Some(fields)
            },
            _ => None,
        }
    }
}

// ── Setting fields ──

/// Sets a field.
pub fn set_field(fields: &mut Vec<(String, Json)>, key: &str, value: Json)
    ensures
        fields_of(final(fields)@) == put(fields_of(old(fields)@), key@, value@),
{
    match find_key(fields, key) {
        Some(i) => {
            fields[i] = (key.to_string(), value);
        },
        None => {
            fields.push((key.to_string(), value));
        },
    }
    assert(fields_of(fields@) =~= put(fields_of(old(fields)@), key@, value@));
}

/// Sets the fields of one object in another.
pub fn merge_fields(fields: &mut Vec<(String, Json)>, more: &Vec<(String, Json)>)
    ensures
        fields_of(final(fields)@) == merged(fields_of(old(fields)@), fields_of(more@)),
{
    let ghost all = fields_of(more@);
    let mut i: usize = 0;
    assert(all.take(0) =~= Seq::<(Seq<char>, JsonModel)>::empty());
    while i < more.len()
        invariant
            i <= more@.len(),
            all == fields_of(more@),
            fields_of(fields@) == merged(fields_of(old(fields)@), all.take(i as int)),
        decreases more@.len() - i,
    {
        let value = more[i].1.duplicate();
        set_field(fields, more[i].0.as_str(), value);
        assert(all.take(i + 1).drop_last() =~= all.take(i as int));
        i = i + 1;
    }
    assert(all.take(all.len() as int) =~= all);
}

// ── Reading ──

/// What a value of `serde_json` stands for.
pub uninterp spec fn value_model(v: Value) -> JsonModel;

/// What `serde_json` reads from a text: a value, or the text of its error.
pub uninterp spec fn json_read(text: Seq<char>) -> Result<JsonModel, Seq<char>>;

/// What `serde_json` reads from the start of some bytes.
pub uninterp spec fn json_prefix(bytes: Seq<u8>) -> Option<JsonModel>;

/// One level of a value of `serde_json`.
enum JsonNode<'a> {
    Null,
    Bool(bool),
    Number(&'a Number),
    Str(&'a String),
    Array(&'a Vec<Value>),
    Object(Vec<(&'a String, &'a Value)>),
}

/// What one level of a value stands for.
spec fn node_model(node: JsonNode) -> JsonModel {
    match node {
        JsonNode::Null => JsonModel::Null,
        JsonNode::Bool(b) => JsonModel::Bool(b),
        JsonNode::Number(n) => JsonModel::Number(*n),
        JsonNode::Str(s) => JsonModel::Str(s@),
        JsonNode::Array(items) => JsonModel::Array(
            Seq::new(items@.len(), |i: int| value_model(items@[i])),
        ),
        JsonNode::Object(fields) => JsonModel::Object(
            Seq::new(fields@.len(), |i: int| (fields@[i].0@, value_model(*fields@[i].1))),
        ),
    }
}

/// The variants of `serde_json::Value`: what a value stands for is given by its variant, by the
/// items of an array in their order, and by the keys and values of an object in theirs, which
/// `iter` of `serde_json::Map` gives, each key once.
#[verifier::external_body]
fn look_into(v: &Value) -> (r: JsonNode<'_>)
    ensures
        node_model(r) == value_model(*v),
        node_model(r) matches JsonModel::Object(fields) ==> distinct_keys(fields),
{
    match v {
        Value::Null => JsonNode::Null,
        Value::Bool(b) => JsonNode::Bool(*b),
        Value::Number(n) => JsonNode::Number(n),
        Value::String(s) => JsonNode::Str(s),
        Value::Array(items) => JsonNode::Array(items),
        Value::Object(fields) => JsonNode::Object(fields.iter().collect()),
    }
}

/// `serde_json::from_str` to a `Value`: the value or the text of the error is a function of the
/// text.
#[verifier::external_body]
fn value_from_text(text: &str) -> (r: Result<Value, String>)
    ensures
        match r {
            Ok(v) => json_read(text@) == Ok::<JsonModel, Seq<char>>(value_model(v)),
            Err(e) => json_read(text@) == Err::<JsonModel, Seq<char>>(e@),
        },
{
    serde_json::from_str(text).map_err(|e| e.to_string())
}

/// `Value::deserialize` from a `serde_json::Deserializer` over bytes: the value is a function of
/// the bytes. Bytes behind the value are not read.
#[verifier::external_body]
fn value_from_prefix(bytes: &[u8]) -> (r: Option<Value>)
    ensures
        json_prefix(bytes@) == (match r {
            Some(v) => Some(value_model(v)),
            None => None,
        }),
{
    Value::deserialize(&mut Deserializer::from_slice(bytes)).ok()
}

/// Takes a value over.
fn import(v: &Value) -> (r: Json)
    ensures
        r@ == value_model(*v),
        keys_differ(r@),
    decreases value_model(*v),
{
    match look_into(v) {
        JsonNode::Null => Json::Null,
        JsonNode::Bool(b) => Json::Bool(b),
        JsonNode::Number(n) => Json::Number(n.clone()),
        JsonNode::Str(s) => Json::Str(s.clone()),
        JsonNode::Array(items) => {
            let mut out: Vec<Json> = Vec::new();
            let mut i: usize = 0;
            let ghost models = value_model(*v)->Array_0;
            while i < items.len()
                invariant
                    i <= items@.len(),
                    value_model(*v) == JsonModel::Array(models),
                    models == Seq::new(items@.len(), |k: int| value_model(items@[k])),
                    out@.len() == i,
                    forall|k: int| 0 <= k < i ==> (#[trigger] out@[k])@ == models[k],
                    forall|k: int| 0 <= k < i ==> keys_differ(#[trigger] models[k]),
                decreases items@.len() - i,
            {
                assert(models[i as int] == value_model(items@[i as int]));
                assert(decreases_to!(value_model(*v) => value_model(*v)->Array_0));
                assert(decreases_to!(models => models[i as int]));
                out.push(import(&items[i]));
                i = i + 1;
            }
            let r = Json::Array(out);
            assert(r@->Array_0 =~= models);
            r
        },
        JsonNode::Object(fields) => {
            let mut out: Vec<(String, Json)> = Vec::new();
            let mut i: usize = 0;
            let ghost models = value_model(*v)->Object_0;
            while i < fields.len()
                invariant
                    i <= fields@.len(),
                    value_model(*v) == JsonModel::Object(models),
                    models == Seq::new(
                        fields@.len(),
                        |k: int| (fields@[k].0@, value_model(*fields@[k].1)),
                    ),
                    out@.len() == i,
                    forall|k: int| 0 <= k < i ==> (#[trigger] out@[k]).0@ == models[k].0,
                    forall|k: int| 0 <= k < i ==> (#[trigger] out@[k]).1@ == models[k].1,
                    forall|k: int| 0 <= k < i ==> keys_differ((#[trigger] models[k]).1),
                decreases fields@.len() - i,
            {
                assert(models[i as int].1 == value_model(*fields@[i as int].1));
                assert(decreases_to!(value_model(*v) => value_model(*v)->Object_0));
                assert(decreases_to!(models => models[i as int]));
                assert(decreases_to!(models[i as int] => models[i as int].1));
                out.push((fields[i].0.clone(), import(fields[i].1)));
                i = i + 1;
            }
            let r = Json::Object(out);
            assert(r@->Object_0 =~= models);
            r
        },
    }
}

/// Reads a JSON text.
pub fn parse_json(text: &str) -> (r: Result<Json, String>)
    ensures
        match r {
            Ok(j) => json_read(text@) == Ok::<JsonModel, Seq<char>>(j@),
            Err(e) => json_read(text@) == Err::<JsonModel, Seq<char>>(e@),
        },
        r matches Ok(j) ==> keys_differ(j@),
{
    match value_from_text(text) {
        Ok(v) => Ok(import(&v)),
        Err(e) => Err(e),
    }
}

/// Reads the JSON value with which some bytes start.
pub fn parse_json_prefix(bytes: &[u8]) -> (r: Option<Json>)
    ensures
        json_prefix(bytes@) == (match r {
            Some(j) => Some(j@),
            None => None,
        }),
        r matches Some(j) ==> keys_differ(j@),
{
    match value_from_prefix(bytes) {
        Some(v) => Some(import(&v)),
        None => None,
    }
}

// ── Writing ──

/// A value in which every object has each of its keys once, with the value that it was given
/// last.
pub open spec fn settled(m: JsonModel) -> JsonModel
    decreases m,
{
    match m {
        JsonModel::Array(items) => JsonModel::Array(
            Seq::new(
                items.len(),
                |i: int|
                    if 0 <= i < items.len() {
                        settled(items[i])
                    } else {
                        JsonModel::Null
                    },
            ),
        ),
        JsonModel::Object(fields) => JsonModel::Object(
            merged(Seq::empty(), settled_fields(fields)),
        ),
        _ => m,
    }
}

/// Fields with their values settled.
pub open spec fn settled_fields(fields: Fields) -> Fields
    decreases fields,
{
    Seq::new(
        fields.len(),
        |i: int|
            if 0 <= i < fields.len() {
                (fields[i].0, settled(fields[i].1))
            } else {
                (Seq::empty(), JsonModel::Null)
            },
    )
}

/// Whether the objects in a value have each key once.
pub open spec fn keys_differ(m: JsonModel) -> bool
    decreases m,
{
    match m {
        JsonModel::Array(items) => forall|i: int|
            0 <= i < items.len() ==> keys_differ(#[trigger] items[i]),
        JsonModel::Object(fields) => distinct_keys(fields) && forall|i: int|
            0 <= i < fields.len() ==> keys_differ((#[trigger] fields[i]).1),
        _ => true,
    }
}

/// The objects in a field of a value have each key once where those in the value have.
pub proof fn keys_differ_inside(m: JsonModel, key: Seq<char>)
    requires
        keys_differ(m),
    ensures
        get_in(m, key) matches Some(inner) ==> keys_differ(inner),
{
    if let JsonModel::Object(fields) = m {
        key_at_is_first(fields, key);
        if let Some(i) = key_at(fields, key) {
            assert(keys_differ(fields[i].1));
        }
    }
}

/// Fields with distinct keys, set one after the other in an empty object, are those fields.
proof fn merging_into_nothing(fields: Fields)
    requires
        distinct_keys(fields),
    ensures
        merged(Seq::empty(), fields) == fields,
    decreases fields.len(),
{
    if fields.len() > 0 {
        let init = fields.drop_last();
        assert(distinct_keys(init));
        merging_into_nothing(init);
        key_at_is_first(init, fields.last().0);
        if let Some(i) = key_at(init, fields.last().0) {
            assert(fields[i].0 == fields[fields.len() - 1].0);
        }
        assert(init.push(fields.last()) =~= fields);
    }
}

/// A value whose objects have each key once is written as it is.
pub proof fn distinct_values_are_settled(m: JsonModel)
    requires
        keys_differ(m),
    ensures
        settled(m) == m,
    decreases m,
{
    match m {
        JsonModel::Array(items) => {
            assert forall|i: int| 0 <= i < items.len() implies settled(#[trigger] items[i])
                == items[i] by {
                distinct_values_are_settled(items[i]);
            }
            assert(settled(m) == JsonModel::Array(settled(m)->Array_0));
            assert(settled(m)->Array_0 =~= items);
        },
        JsonModel::Object(fields) => {
            assert forall|i: int| 0 <= i < fields.len() implies settled((#[trigger] fields[i]).1)
                == fields[i].1 by {
                distinct_values_are_settled(fields[i].1);
            }
            assert(settled_fields(fields) =~= fields);
            merging_into_nothing(fields);
        },
        _ => {},
    }
}

proof fn merging_keeps_inner_keys_distinct(fields: Fields, more: Fields)
    requires
        forall|i: int| 0 <= i < fields.len() ==> keys_differ((#[trigger] fields[i]).1),
        forall|i: int| 0 <= i < more.len() ==> keys_differ((#[trigger] more[i]).1),
    ensures
        forall|i: int|
            0 <= i < merged(fields, more).len() ==> keys_differ((#[trigger] merged(fields, more)[i]).1),
    decreases more.len(),
{
    if more.len() > 0 {
        let init = more.drop_last();
        assert forall|i: int| 0 <= i < init.len() implies keys_differ((#[trigger] init[i]).1) by {
            assert(init[i] == more[i]);
        }
        merging_keeps_inner_keys_distinct(fields, init);
        key_at_is_first(merged(fields, init), more.last().0);
        assert(keys_differ(more[more.len() - 1].1));
    }
}

/// What is written has every key once, in all its objects.
pub proof fn settled_keys_differ(m: JsonModel)
    ensures
        keys_differ(settled(m)),
    decreases m,
{
    match m {
        JsonModel::Array(items) => {
            let out = settled(m)->Array_0;
            assert forall|i: int| 0 <= i < out.len() implies keys_differ(#[trigger] out[i]) by {
                settled_keys_differ(items[i]);
            }
        },
        JsonModel::Object(fields) => {
            let all = settled_fields(fields);
            assert forall|i: int| 0 <= i < all.len() implies keys_differ((#[trigger] all[i]).1) by {
                settled_keys_differ(fields[i].1);
            }
            let none: Fields = Seq::empty();
            merging_keeps_keys_distinct(none, all);
            merging_keeps_inner_keys_distinct(none, all);
        },
        _ => {},
    }
}

/// What is written under a key of an object is the value that the key was given last.
pub proof fn settled_values_are_the_last(fields: Fields, key: Seq<char>)
    ensures
        get_in(settled(JsonModel::Object(fields)), key) == (match last_value(fields, key) {
            Some(v) => Some(settled(v)),
            None => None,
        }),
{
    let all = settled_fields(fields);
    merging_sets_last_values(Seq::empty(), all, key);
    last_value_of_settled(fields, key);
}

proof fn last_value_of_settled(fields: Fields, key: Seq<char>)
    ensures
        last_value(settled_fields(fields), key) == (match last_value(fields, key) {
            Some(v) => Some(settled(v)),
            None => None,
        }),
    decreases fields.len(),
{
    let all = settled_fields(fields);
    if fields.len() > 0 {
        let init = fields.drop_last();
        assert(all.drop_last() =~= settled_fields(init)) by {
            assert forall|i: int| 0 <= i < init.len() implies all.drop_last()[i] == settled_fields(
                init,
            )[i] by {
                assert(init[i] == fields[i]);
            }
        }
        last_value_of_settled(init, key);
    }
}

/// The text that `serde_json` writes for a value.
pub uninterp spec fn json_text(m: JsonModel) -> Seq<char>;

/// The text on several lines that `serde_json` writes for a value.
pub uninterp spec fn json_pretty(m: JsonModel) -> Seq<char>;

/// What a value of `serde_json` is made of.
enum JsonParts {
    Null,
    Bool(bool),
    Number(Number),
    Str(String),
    Array(Vec<Value>),
    Object(Vec<(String, Value)>),
}

/// What the parts of a value stand for together.
spec fn parts_model(parts: JsonParts) -> JsonModel {
    match parts {
        JsonParts::Null => JsonModel::Null,
        JsonParts::Bool(b) => JsonModel::Bool(b),
        JsonParts::Number(n) => JsonModel::Number(n),
        JsonParts::Str(s) => JsonModel::Str(s@),
        JsonParts::Array(items) => JsonModel::Array(
            Seq::new(items@.len(), |i: int| value_model(items@[i])),
        ),
        JsonParts::Object(fields) => JsonModel::Object(
            merged(
                Seq::empty(),
                Seq::new(fields@.len(), |i: int| (fields@[i].0@, value_model(fields@[i].1))),
            ),
        ),
    }
}

/// The variants of `serde_json::Value`, and `FromIterator` of `serde_json::Map`, which sets the
/// fields one after the other: a key that comes again keeps its place and takes the later value.
#[verifier::external_body]
fn put_together(parts: JsonParts) -> (r: Value)
    ensures
        value_model(r) == parts_model(parts),
{
    match parts {
        JsonParts::Null => Value::Null,
        JsonParts::Bool(b) => Value::Bool(b),
        JsonParts::Number(n) => Value::Number(n),
        JsonParts::Str(s) => Value::String(s),
        JsonParts::Array(items) => Value::Array(items),
        JsonParts::Object(fields) => Value::Object(fields.into_iter().collect()),
    }
}

/// `serde_json::to_string` of a `Value`, which does not fail: a function of what the value
/// stands for.
#[verifier::external_body]
fn value_to_text(v: &Value) -> (r: String)
    ensures
        r@ == json_text(value_model(*v)),
{
    serde_json::to_string(v).unwrap()
}

/// `serde_json::to_string_pretty` of a `Value`, which does not fail: a function of what the
/// value stands for.
#[verifier::external_body]
fn value_to_pretty(v: &Value) -> (r: String)
    ensures
        r@ == json_pretty(value_model(*v)),
{
    serde_json::to_string_pretty(v).unwrap()
}

fn export_items(items: &Vec<Json>) -> (r: Vec<Value>)
    ensures
        Seq::new(r@.len(), |i: int| value_model(r@[i])) == Seq::new(
            items@.len(),
            |i: int| settled(items@[i]@),
        ),
    decreases items,
{
    let mut out: Vec<Value> = Vec::new();
    let mut i: usize = 0;
    while i < items.len()
        invariant
            i <= items@.len(),
            out@.len() == i,
            forall|k: int| 0 <= k < i ==> value_model(#[trigger] out@[k]) == settled(items@[k]@),
        decreases items@.len() - i,
    {
        out.push(export(&items[i]));
        i = i + 1;
    }
    out
}

fn export_fields(fields: &Vec<(String, Json)>) -> (r: Vec<(String, Value)>)
    ensures
        Seq::new(r@.len(), |i: int| (r@[i].0@, value_model(r@[i].1))) == Seq::new(
            fields@.len(),
            |i: int| (fields@[i].0@, settled(fields@[i].1@)),
        ),
    decreases fields,
{
    let mut out: Vec<(String, Value)> = Vec::new();
    let mut i: usize = 0;
    while i < fields.len()
        invariant
            i <= fields@.len(),
            out@.len() == i,
            forall|k: int| 0 <= k < i ==> (#[trigger] out@[k]).0@ == fields@[k].0@,
            forall|k: int|
                0 <= k < i ==> value_model((#[trigger] out@[k]).1) == settled(fields@[k].1@),
        decreases fields@.len() - i,
    {
        out.push((fields[i].0.clone(), export(&fields[i].1)));
        i = i + 1;
    }
    out
}

/// Hands a value over.
fn export(json: &Json) -> (r: Value)
    ensures
        value_model(r) == settled(json@),
    decreases json,
{
    let parts = match json {
        Json::Null => JsonParts::Null,
        Json::Bool(b) => JsonParts::Bool(*b),
        Json::Number(n) => JsonParts::Number(n.clone()),
        Json::Str(s) => JsonParts::Str(s.clone()),
        Json::Array(items) => JsonParts::Array(export_items(items)),
        Json::Object(fields) => JsonParts::Object(export_fields(fields)),
    };
    proof {
        match json {
            Json::Array(items) => {
                assert(json@->Array_0 =~= items_of(items@));
                assert(settled(json@)->Array_0 =~= parts_model(parts)->Array_0);
            },
            Json::Object(fields) => {
                assert(json@->Object_0 =~= fields_of(fields@));
                assert(settled_fields(json@->Object_0) =~= Seq::new(
                    fields@.len(),
                    |i: int| (fields@[i].0@, settled(fields@[i].1@)),
                ));
            },
            _ => {},
        }
    }
    put_together(parts)
}

impl Json {
    /// The text of this value, on one line and without spaces.
    pub fn to_text(&self) -> (r: String)
        ensures
            r@ == json_text(settled(self@)),
    {
        value_to_text(&export(self))
    }

    /// The text of this value, on several lines.
    pub fn to_pretty(&self) -> (r: String)
        ensures
            r@ == json_pretty(settled(self@)),
    {
        value_to_pretty(&export(self))
    }
}

} // verus!
