//! JSON documents and the redaction of guest-supplied structured log
//! fields.
//!
//! A document is parsed with `serde_json` into a `JsonValue`, whose model
//! (`JsonModel`) the contracts speak of. A `fields-json` document is walked
//! value by value: strings are scrubbed (by key shape where they sit under
//! a key, as free text otherwise), and a secret-shaped key whose value is
//! not a string is redacted wholesale. Numbers, booleans and nulls pass
//! through; arrays keep the key they sit under.
use vstd::prelude::*;

use crate::obs::{looks_secret, secret_shaped};
use crate::scrubber::Scrubber;
use crate::text::{extend_str, string_from};
use crate::wasm_host::HostError;

verus! {

/// A JSON document. Numbers keep their JSON text; object members keep
/// their order.
#[derive(Debug)]
pub enum JsonValue {
    Null,
    Bool(bool),
    Number(String),
    Str(String),
    Array(Vec<JsonValue>),
    Object(Vec<(String, JsonValue)>),
}

/// The value of a JSON document: strings, numbers and member names taken
/// by their characters.
pub enum JsonModel {
    Null,
    Bool(bool),
    Number(Seq<char>),
    Str(Seq<char>),
    Array(Seq<JsonModel>),
    Object(Seq<(Seq<char>, JsonModel)>),
}

/// The model of a value.
pub open spec fn value_model(v: JsonValue) -> JsonModel
    decreases v, 0nat,
{
    match v {
        JsonValue::Null => JsonModel::Null,
        JsonValue::Bool(b) => JsonModel::Bool(b),
        JsonValue::Number(n) => JsonModel::Number(n@),
        JsonValue::Str(t) => JsonModel::Str(t@),
        JsonValue::Array(items) => {
            proof {
                assert(decreases_to!(items => items@));
            }
            JsonModel::Array(items_model(items@, items@.len()))
        },
        JsonValue::Object(members) => {
            proof {
                assert(decreases_to!(members => members@));
            }
            JsonModel::Object(members_model(members@, members@.len()))
        },
    }
}

/// The models of the first `n` items of `s`.
pub open spec fn items_model(s: Seq<JsonValue>, n: nat) -> Seq<JsonModel>
    decreases s, n,
{
    if n == 0 || n > s.len() {
        Seq::empty()
    } else {
        items_model(s, (n - 1) as nat).push(value_model(s[n - 1]))
    }
}

/// The models of the first `n` members of `s`.
pub open spec fn members_model(s: Seq<(String, JsonValue)>, n: nat) -> Seq<(Seq<char>, JsonModel)>
    decreases s, n,
{
    if n == 0 || n > s.len() {
        Seq::empty()
    } else {
        proof {
            assert(decreases_to!(s => s[n - 1]));
            assert(decreases_to!(s[n - 1] => s[n - 1].1));
        }
        members_model(s, (n - 1) as nat).push((s[n - 1].0@, value_model(s[n - 1].1)))
    }
}

impl View for JsonValue {
    type V = JsonModel;

    open spec fn view(&self) -> JsonModel {
        value_model(*self)
    }
}

pub proof fn lemma_items_model(s: Seq<JsonValue>, n: nat)
    requires
        n <= s.len(),
    ensures
        items_model(s, n).len() == n,
        forall|i: int| 0 <= i < n ==> #[trigger] items_model(s, n)[i] == value_model(s[i]),
    decreases n,
{
    if n > 0 {
        lemma_items_model(s, (n - 1) as nat);
    }
}

pub proof fn lemma_members_model(s: Seq<(String, JsonValue)>, n: nat)
    requires
        n <= s.len(),
    ensures
        members_model(s, n).len() == n,
        forall|i: int|
            0 <= i < n ==> #[trigger] members_model(s, n)[i] == (s[i].0@, value_model(s[i].1)),
    decreases n,
{
    if n > 0 {
        lemma_members_model(s, (n - 1) as nat);
    }
}

/// The value of the first member of `ms` named `key`.
pub open spec fn lookup(ms: Seq<(Seq<char>, JsonModel)>, key: Seq<char>) -> Option<JsonModel>
    decreases ms.len(),
{
    if ms.len() == 0 {
        None
    } else if ms[0].0 == key {
        Some(ms[0].1)
    } else {
        lookup(ms.drop_first(), key)
    }
}

/// The value of member `key` of `v`, when `v` is an object that has one.
pub open spec fn field(v: JsonModel, key: Seq<char>) -> Option<JsonModel> {
    match v {
        JsonModel::Object(ms) => lookup(ms, key),
        _ => None,
    }
}

proof fn lemma_lookup_step(ms: Seq<(Seq<char>, JsonModel)>, key: Seq<char>, i: int)
    requires
        0 <= i < ms.len(),
    ensures
        ms[i].0 == key ==> lookup(ms.skip(i), key) == Some(ms[i].1),
        ms[i].0 != key ==> lookup(ms.skip(i), key) == lookup(ms.skip(i + 1), key),
{
    assert(ms.skip(i).drop_first() =~= ms.skip(i + 1));
}

/// The index of the first member of `members` named `key`.
fn member_index(members: &Vec<(String, JsonValue)>, key: &str) -> (r: Option<usize>)
    ensures
        match r {
            Some(i) => i < members.len() && lookup(members_model(members@, members@.len()), key@)
                == Some(value_model(members@[i as int].1)),
            None => lookup(members_model(members@, members@.len()), key@) is None,
        },
{
    let ghost ms = members_model(members@, members@.len());
    proof {
        lemma_members_model(members@, members@.len());
        assert(ms.skip(0) =~= ms);
    }
    let mut i: usize = 0;
    while i < members.len()
        invariant
            i <= members.len(),
            ms == members_model(members@, members@.len()),
            ms.len() == members.len(),
            forall|j: int| 0 <= j < ms.len() ==> #[trigger] ms[j] == (members@[j].0@, value_model(members@[j].1)),
            lookup(ms, key@) == lookup(ms.skip(i as int), key@),
        decreases members.len() - i,
    {
        proof {
            lemma_lookup_step(ms, key@, i as int);
        }
        if crate::strmap::str_eq(members[i].0.as_str(), key) {
            return Some(i);
        }
        i = i + 1;
    }
    proof {
        assert(ms.skip(i as int).len() == 0);
    }
    None
}

impl JsonValue {
    /// Take the value of the first member named `key` out of this value;
    /// `null` when this value is not an object or has no such member.
    pub fn take_member(self, key: &str) -> (r: JsonValue)
        ensures
            r@ == match field(self@, key@) {
                Some(p) => p,
                None => JsonModel::Null,
            },
    {
        match self {
            JsonValue::Object(mut members) => match member_index(&members, key) {
                Some(i) => {
                    let (_, p) = members.remove(i);
                    p
                },
                None => JsonValue::Null,
            },
            _ => JsonValue::Null,
        }
    }
}

impl JsonValue {
    /// The value of the first member named `key`, when this value is an
    /// object that has one.
    pub fn get(&self, key: &str) -> (r: Option<&JsonValue>)
        ensures
            match r {
                Some(v) => field(self@, key@) == Some(v@),
                None => field(self@, key@) is None,
            },
    {
        match self {
            JsonValue::Object(members) => match member_index(members, key) {
                Some(i) => Some(&members[i].1),
                None => None,
            },
            _ => None,
        }
    }
}

/// Item `i` of `v`, when `v` is an array that has one.
pub open spec fn item(v: JsonModel, i: int) -> Option<JsonModel> {
    match v {
        JsonModel::Array(items) => if 0 <= i < items.len() {
            Some(items[i])
        } else {
            None
        },
        _ => None,
    }
}

/// Field `key`, declared `i`-th of `n`, of a struct read from `v` the way
/// `serde`'s derived `Deserialize` reads a struct from a document: from an
/// object by name (absent when the object has no such member), or from an
/// array of exactly `n` elements by position. Any other value has no
/// fields.
pub open spec fn slot(v: JsonModel, key: Seq<char>, i: int, n: int) -> Option<JsonModel> {
    match v {
        JsonModel::Object(ms) => lookup(ms, key),
        JsonModel::Array(items) => if items.len() == n {
            item(v, i)
        } else {
            None
        },
        _ => None,
    }
}

impl JsonValue {
    /// Item `i` of this value, when it is an array that has one.
    pub fn get_item(&self, i: usize) -> (r: Option<&JsonValue>)
        ensures
            match r {
                Some(x) => item(self@, i as int) == Some(x@),
                None => item(self@, i as int) is None,
            },
    {
        match self {
            JsonValue::Array(items) => {
                proof {
                    lemma_items_model(items@, items@.len());
                }
                if i < items.len() {
                    Some(&items[i])
                } else {
                    None
                }
            },
            _ => None,
        }
    }

    /// The number of items of this value, when it is an array.
    pub fn item_count(&self) -> (n: Option<usize>)
        ensures
            match n {
                Some(k) => self@ is Array && self@->Array_0.len() == k,
                None => !(self@ is Array),
            },
    {
        match self {
            JsonValue::Array(items) => {
                proof {
                    lemma_items_model(items@, items@.len());
                }
                Some(items.len())
            },
            _ => None,
        }
    }

    /// Take item `i` out of this value; `null` when it is not an array or
    /// has no such item.
    pub fn take_item(self, i: usize) -> (r: JsonValue)
        ensures
            r@ == match item(self@, i as int) {
                Some(x) => x,
                None => JsonModel::Null,
            },
    {
        match self {
            JsonValue::Array(mut items) => {
                proof {
                    lemma_items_model(items@, items@.len());
                }
                if i < items.len() {
                    items.remove(i)
                } else {
                    JsonValue::Null
                }
            },
            _ => JsonValue::Null,
        }
    }

    /// Field `key`, declared `i`-th of `n`, of the struct this value holds
    /// (`slot`).
    pub fn slot(&self, key: &str, i: usize, n: usize) -> (r: Option<&JsonValue>)
        ensures
            match r {
                Some(x) => slot(self@, key@, i as int, n as int) == Some(x@),
                None => slot(self@, key@, i as int, n as int) is None,
            },
    {
        match self {
            JsonValue::Object(_) => self.get(key),
            JsonValue::Array(items) => {
                proof {
                    lemma_items_model(items@, items@.len());
                }
                if items.len() == n {
                    self.get_item(i)
                } else {
                    None
                }
            },
            _ => None,
        }
    }
}

/// The `serde_json` document type, carried through opaquely.
#[verifier::external_type_specification]
#[verifier::external_body]
pub struct ExSerdeJsonValue(serde_json::Value);

/// What `serde_json::from_str::<serde_json::Value>` makes of a text: the
/// document's model, or the parser's error message. A function of the text
/// alone; the JSON grammar is not restated here. (In the document, a key
/// repeated within one object holds its last value.)
pub uninterp spec fn serde_json_document(text: Seq<char>) -> Result<JsonModel, Seq<char>>;

/// What `serde_json::to_string` writes for a document with this model.
pub uninterp spec fn serde_json_text(v: JsonModel) -> Seq<char>;

/// Copy a `serde_json` document into a `JsonValue`, one node for one node:
/// numbers keep the text `serde_json` prints for them, object members keep
/// the order in which the document map yields them.
#[verifier::external_body]
fn json_from_serde(v: serde_json::Value) -> JsonValue {
    match v {
        serde_json::Value::Null => JsonValue::Null,
        serde_json::Value::Bool(b) => JsonValue::Bool(b),
        serde_json::Value::Number(n) => JsonValue::Number(n.to_string()),
        serde_json::Value::String(t) => JsonValue::Str(t),
        serde_json::Value::Array(items) => JsonValue::Array(items.into_iter().map(json_from_serde).collect()),
        serde_json::Value::Object(map) => JsonValue::Object(map.into_iter().map(|(k, x)| (k, json_from_serde(x))).collect()),
    }
}

/// Copy a `JsonValue` into a `serde_json` document, one node for one node;
/// a number text that `serde_json` does not read as a number becomes `null`.
#[verifier::external_body]
fn json_to_serde(v: &JsonValue) -> serde_json::Value {
    match v {
        JsonValue::Null => serde_json::Value::Null,
        JsonValue::Bool(b) => serde_json::Value::Bool(*b),
        JsonValue::Number(n) => n.parse::<serde_json::Number>().map(serde_json::Value::Number).unwrap_or(serde_json::Value::Null),
        JsonValue::Str(t) => serde_json::Value::String(t.clone()),
        JsonValue::Array(items) => serde_json::Value::Array(items.iter().map(json_to_serde).collect()),
        JsonValue::Object(members) => serde_json::Value::Object(members.iter().map(|(k, x)| (k.clone(), json_to_serde(x))).collect()),
    }
}

/// Parse `text` with `serde_json::from_str::<serde_json::Value>`. The
/// contract claims only that the outcome is a function of the text: the
/// document's model on success, the parser's message on failure.
#[verifier::external_body]
pub fn parse_json_document(text: &str) -> (r: Result<JsonValue, String>)
    ensures
        match r {
            Ok(v) => serde_json_document(text@) == Ok::<JsonModel, Seq<char>>(v@),
            Err(m) => serde_json_document(text@) == Err::<JsonModel, Seq<char>>(m@),
        },
{
    match serde_json::from_str::<serde_json::Value>(text) {
        Ok(v) => Ok(json_from_serde(v)),
        Err(e) => Err(e.to_string()),
    }
}

/// Serialise `v` with `serde_json::to_string`. The contract claims only
/// that the text is a function of the value's model.
#[verifier::external_body]
fn json_text(v: &JsonValue) -> (t: String)
    ensures
        t@ == serde_json_text(v@),
{
    json_to_serde(v).to_string()
}

/// The items and member values of a model lie below it, so the recursive
/// definitions over models unfold on them.
pub proof fn lemma_model_heights(v: JsonModel)
    ensures
        v is Array ==> forall|j: int|
            0 <= j < v->Array_0.len() ==> decreases_to!(v => #[trigger] v->Array_0[j]),
        v is Object ==> forall|j: int|
            0 <= j < v->Object_0.len() ==> decreases_to!(v => (#[trigger] v->Object_0[j]).1),
{
    match v {
        JsonModel::Array(items) => {
            assert(decreases_to!(v => v->Array_0));
            assert forall|j: int| 0 <= j < items.len() implies decreases_to!(
                v => #[trigger] v->Array_0[j]
            ) by {
                assert(decreases_to!(items => items[j]));
            }
        },
        JsonModel::Object(members) => {
            assert(decreases_to!(v => v->Object_0));
            assert forall|j: int| 0 <= j < members.len() implies decreases_to!(
                v => (#[trigger] v->Object_0[j]).1
            ) by {
                assert(decreases_to!(members => members[j]));
                assert(decreases_to!(members[j] => members[j].1));
            }
        },
        _ => {},
    }
}

/// The view of an optional key.
pub open spec fn key_view(key: Option<&str>) -> Option<Seq<char>> {
    match key {
        Some(k) => Some(k@),
        None => None,
    }
}

/// What a string found under `key` becomes.
pub open spec fn scrubbed_string(s: Scrubber, key: Option<Seq<char>>, text: Seq<char>) -> Seq<
    char,
> {
    match key {
        Some(k) => if secret_shaped(k) {
            "[REDACTED]"@
        } else {
            s.scrubbed(text)
        },
        None => s.scrubbed(text),
    }
}

/// Whether the scrub of a string found under `key` is defined.
pub open spec fn string_scrub_ok(s: Scrubber, key: Option<Seq<char>>, text: Seq<char>) -> bool {
    match key {
        Some(k) => secret_shaped(k) || s.can_scrub(text),
        None => s.can_scrub(text),
    }
}

/// A member that is replaced wholesale: a secret-shaped key over a value
/// that is not a string.
pub open spec fn redacted_wholesale(name: Seq<char>, v: JsonModel) -> bool {
    secret_shaped(name) && !(v is Str)
}

/// Every string that the scrub of `v` (found under `key`) passes through
/// the free-text scrub can be scrubbed.
pub open spec fn json_scrub_ok(s: Scrubber, key: Option<Seq<char>>, v: JsonModel) -> bool
    decreases v,
{
    match v {
        JsonModel::Str(t) => string_scrub_ok(s, key, t),
        JsonModel::Array(items) => forall|i: int|
            0 <= i < items.len() ==> json_scrub_ok(s, key, #[trigger] items[i]),
        JsonModel::Object(members) => forall|i: int|
            0 <= i < members.len() ==> (redacted_wholesale((#[trigger] members[i]).0, members[i].1)
                || json_scrub_ok(s, Some(members[i].0), members[i].1)),
        _ => true,
    }
}

/// `out` is the scrub of `v`, found under `key` (`None` at the top level):
/// the same shape, every string scrubbed, every secret-shaped key over a
/// non-string value mapped to the string `[REDACTED]`.
pub open spec fn json_scrubbed(s: Scrubber, key: Option<Seq<char>>, v: JsonModel, out: JsonModel) -> bool
    decreases v,
{
    match v {
        JsonModel::Null => out is Null,
        JsonModel::Bool(b) => out == JsonModel::Bool(b),
        JsonModel::Number(n) => out == JsonModel::Number(n),
        JsonModel::Str(t) => out == JsonModel::Str(scrubbed_string(s, key, t)),
        JsonModel::Array(items) => out matches JsonModel::Array(outs) && outs.len() == items.len()
            && forall|i: int|
            0 <= i < items.len() ==> json_scrubbed(s, key, #[trigger] items[i], outs[i]),
        JsonModel::Object(members) => out matches JsonModel::Object(outs) && outs.len()
            == members.len() && forall|i: int|
            0 <= i < members.len() ==> {
                let (name, value) = #[trigger] members[i];
                &&& outs[i].0 == name
                &&& if redacted_wholesale(name, value) {
                    outs[i].1 == JsonModel::Str("[REDACTED]"@)
                } else {
                    json_scrubbed(s, Some(name), value, outs[i].1)
                }
            },
    }
}

/// The scrub of a document is determined by the document: two results of
/// scrubbing the same value under the same key are the same value.
pub proof fn lemma_json_scrubbed_unique(
    s: Scrubber,
    key: Option<Seq<char>>,
    v: JsonModel,
    out1: JsonModel,
    out2: JsonModel,
)
    requires
        json_scrubbed(s, key, v, out1),
        json_scrubbed(s, key, v, out2),
    ensures
        out1 == out2,
    decreases v,
{
    match v {
        JsonModel::Array(items) => {
            let o1 = out1->Array_0;
            let o2 = out2->Array_0;
            assert forall|i: int| 0 <= i < items.len() implies o1[i] == o2[i] by {
                lemma_json_scrubbed_unique(s, key, items[i], o1[i], o2[i]);
            }
            assert(o1 =~= o2);
        },
        JsonModel::Object(members) => {
            let o1 = out1->Object_0;
            let o2 = out2->Object_0;
            assert forall|i: int| 0 <= i < members.len() implies o1[i] == o2[i] by {
                let (name, value) = members[i];
                if !redacted_wholesale(name, value) {
                    lemma_json_scrubbed_unique(s, Some(name), value, o1[i].1, o2[i].1);
                }
            }
            assert(o1 =~= o2);
        },
        _ => {},
    }
}

fn scrub_string(scrubber: &Scrubber, key: Option<&str>, text: &str) -> (r: String)
    requires
        string_scrub_ok(*scrubber, key_view(key), text@),
    ensures
        r@ == scrubbed_string(*scrubber, key_view(key), text@),
{
    match key {
        Some(k) => scrubber.redact_key_value(k, text),
        None => scrubber.scrub_text(text),
    }
}

/// Scrub a JSON value found under `key` (`None` at the top level).
pub fn scrub_json(scrubber: &Scrubber, key: Option<&str>, value: &JsonValue) -> (r: JsonValue)
    requires
        json_scrub_ok(*scrubber, key_view(key), value@),
    ensures
        json_scrubbed(*scrubber, key_view(key), value@, r@),
    decreases value,
{
    match value {
        JsonValue::Null => JsonValue::Null,
        JsonValue::Bool(b) => JsonValue::Bool(*b),
        JsonValue::Number(n) => JsonValue::Number(n.clone()),
        JsonValue::Str(t) => JsonValue::Str(scrub_string(scrubber, key, t.as_str())),
        JsonValue::Array(items) => {
            let ghost ims = items_model(items@, items@.len());
            proof {
                lemma_items_model(items@, items@.len());
                assert(value@ == JsonModel::Array(ims));
                lemma_model_heights(value@);
                assert(json_scrub_ok(*scrubber, key_view(key), JsonModel::Array(ims)));
            }
            let mut outs: Vec<JsonValue> = Vec::new();
            let mut i: usize = 0;
            while i < items.len()
                invariant
                    i <= items.len(),
                    outs.len() == i,
                    *value is Array,
                    value->Array_0 == *items,
                    ims == items_model(items@, items@.len()),
                    value@ == JsonModel::Array(ims),
                    ims.len() == items.len(),
                    forall|j: int| 0 <= j < ims.len() ==> #[trigger] ims[j] == items@[j]@,
                    forall|j: int|
                        0 <= j < ims.len() ==> json_scrub_ok(*scrubber, key_view(key), #[trigger] ims[j]),
                    forall|j: int|
                        0 <= j < i ==> json_scrubbed(
                            *scrubber,
                            key_view(key),
                            #[trigger] ims[j],
                            outs@[j]@,
                        ),
                decreases items.len() - i,
            {
                proof {
                    assert(value->Array_0@[i as int] == items@[i as int]);
                    vstd::std_specs::vec::axiom_vec_index_decreases(value->Array_0, i as int);
                    assert(decreases_to!(*value => value->Array_0));
                    assert(ims[i as int] == items@[i as int]@);
                }
                let o = scrub_json(scrubber, key, &items[i]);
                outs.push(o);
                i = i + 1;
            }
            let r = JsonValue::Array(outs);
            proof {
                lemma_items_model(outs@, outs@.len());
                let oms = items_model(outs@, outs@.len());
                assert forall|j: int| 0 <= j < ims.len() implies json_scrubbed(
                    *scrubber,
                    key_view(key),
                    #[trigger] ims[j],
                    oms[j],
                ) by {
                    assert(oms[j] == outs@[j]@);
                }
            }
            r
        },
        JsonValue::Object(members) => {
            let ghost mms = members_model(members@, members@.len());
            proof {
                lemma_members_model(members@, members@.len());
                assert(value@ == JsonModel::Object(mms));
                lemma_model_heights(value@);
                assert(json_scrub_ok(*scrubber, key_view(key), JsonModel::Object(mms)));
            }
            let mut outs: Vec<(String, JsonValue)> = Vec::new();
            let mut i: usize = 0;
            while i < members.len()
                invariant
                    i <= members.len(),
                    outs.len() == i,
                    *value is Object,
                    value->Object_0 == *members,
                    mms == members_model(members@, members@.len()),
                    value@ == JsonModel::Object(mms),
                    mms.len() == members.len(),
                    forall|j: int|
                        0 <= j < mms.len() ==> #[trigger] mms[j] == (
                            members@[j].0@,
                            members@[j].1@,
                        ),
                    forall|j: int|
                        0 <= j < mms.len() ==> (redacted_wholesale(
                            (#[trigger] mms[j]).0,
                            mms[j].1,
                        ) || json_scrub_ok(*scrubber, Some(mms[j].0), mms[j].1)),
                    forall|j: int|
                        0 <= j < i ==> {
                            let (name, v) = #[trigger] mms[j];
                            &&& outs@[j].0@ == name
                            &&& if redacted_wholesale(name, v) {
                                outs@[j].1@ == JsonModel::Str("[REDACTED]"@)
                            } else {
                                json_scrubbed(*scrubber, Some(name), v, outs@[j].1@)
                            }
                        },
                decreases members.len() - i,
            {
                let name = &members[i].0;
                let v = &members[i].1;
                proof {
                    assert(value->Object_0@[i as int] == members@[i as int]);
                    vstd::std_specs::vec::axiom_vec_index_decreases(value->Object_0, i as int);
                    assert(decreases_to!(*value => value->Object_0));
                    assert(mms[i as int] == (members@[i as int].0@, members@[i as int].1@));
                }
                let is_str = match v {
                    JsonValue::Str(_) => true,
                    _ => false,
                };
                let new_v = if looks_secret(name.as_str()) && !is_str {
                    JsonValue::Str(scrubber.redact_key_value(name.as_str(), ""))
                } else {
                    scrub_json(scrubber, Some(name.as_str()), v)
                };
                outs.push((name.clone(), new_v));
                i = i + 1;
            }
            let r = JsonValue::Object(outs);
            proof {
                lemma_members_model(outs@, outs@.len());
                let oms = members_model(outs@, outs@.len());
                assert forall|j: int| 0 <= j < mms.len() implies {
                    let (name, v) = #[trigger] mms[j];
                    &&& oms[j].0 == name
                    &&& if redacted_wholesale(name, v) {
                        oms[j].1 == JsonModel::Str("[REDACTED]"@)
                    } else {
                        json_scrubbed(*scrubber, Some(name), v, oms[j].1)
                    }
                } by {
                    assert(oms[j] == (outs@[j].0@, outs@[j].1@));
                }
            }
            r
        },
    }
}

/// Whether `scrub_json` may be called on `value` found under `key`.
pub fn json_scrub_is_safe(scrubber: &Scrubber, key: Option<&str>, value: &JsonValue) -> (b: bool)
    ensures
        b == json_scrub_ok(*scrubber, key_view(key), value@),
    decreases value,
{
    match value {
        JsonValue::Str(t) => match key {
            Some(k) => looks_secret(k) || scrubber.scrub_is_safe(t.as_str()),
            None => scrubber.scrub_is_safe(t.as_str()),
        },
        JsonValue::Array(items) => {
            let ghost ims = items_model(items@, items@.len());
            proof {
                lemma_items_model(items@, items@.len());
            }
            let mut i: usize = 0;
            while i < items.len()
                invariant
                    i <= items.len(),
                    *value is Array,
                    value->Array_0 == *items,
                    ims == items_model(items@, items@.len()),
                    value@ == JsonModel::Array(ims),
                    ims.len() == items.len(),
                    forall|j: int| 0 <= j < ims.len() ==> #[trigger] ims[j] == items@[j]@,
                    forall|j: int|
                        0 <= j < i ==> json_scrub_ok(*scrubber, key_view(key), #[trigger] ims[j]),
                decreases items.len() - i,
            {
                proof {
                    assert(value->Array_0@[i as int] == items@[i as int]);
                    vstd::std_specs::vec::axiom_vec_index_decreases(value->Array_0, i as int);
                    assert(decreases_to!(*value => value->Array_0));
                    assert(ims[i as int] == items@[i as int]@);
                }
                if !json_scrub_is_safe(scrubber, key, &items[i]) {
                    proof {
                        assert(!json_scrub_ok(*scrubber, key_view(key), ims[i as int]));
                        lemma_model_heights(JsonModel::Array(ims));
                        assert(!json_scrub_ok(*scrubber, key_view(key), JsonModel::Array(ims)));
                    }
                    return false;
                }
                i = i + 1;
            }
            true
        },
        JsonValue::Object(members) => {
            let ghost mms = members_model(members@, members@.len());
            proof {
                lemma_members_model(members@, members@.len());
            }
            let mut i: usize = 0;
            while i < members.len()
                invariant
                    i <= members.len(),
                    *value is Object,
                    value->Object_0 == *members,
                    mms == members_model(members@, members@.len()),
                    value@ == JsonModel::Object(mms),
                    mms.len() == members.len(),
                    forall|j: int|
                        0 <= j < mms.len() ==> #[trigger] mms[j] == (
                            members@[j].0@,
                            members@[j].1@,
                        ),
                    forall|j: int|
                        0 <= j < i ==> (redacted_wholesale((#[trigger] mms[j]).0, mms[j].1)
                            || json_scrub_ok(*scrubber, Some(mms[j].0), mms[j].1)),
                decreases members.len() - i,
            {
                let name = &members[i].0;
                let v = &members[i].1;
                proof {
                    assert(value->Object_0@[i as int] == members@[i as int]);
                    vstd::std_specs::vec::axiom_vec_index_decreases(value->Object_0, i as int);
                    assert(decreases_to!(*value => value->Object_0));
                    assert(mms[i as int] == (members@[i as int].0@, members@[i as int].1@));
                }
                let is_str = match v {
                    JsonValue::Str(_) => true,
                    _ => false,
                };
                if !(looks_secret(name.as_str()) && !is_str) {
                    if !json_scrub_is_safe(scrubber, Some(name.as_str()), v) {
                        proof {
                            assert(!redacted_wholesale(mms[i as int].0, mms[i as int].1));
                            lemma_model_heights(JsonModel::Object(mms));
                            assert(!json_scrub_ok(*scrubber, key_view(key), JsonModel::Object(mms)));
                        }
                        return false;
                    }
                }
                i = i + 1;
            }
            true
        },
        _ => true,
    }
}

/// In a scrubbed object, a member whose key is secret-shaped holds exactly
/// the string `[REDACTED]`, whatever value it held before, and keeps its
/// key and position.
pub proof fn lemma_secret_members_redacted(
    s: Scrubber,
    key: Option<Seq<char>>,
    v: JsonModel,
    out: JsonModel,
)
    requires
        json_scrubbed(s, key, v, out),
        v is Object,
    ensures
        out is Object,
        out->Object_0.len() == v->Object_0.len(),
        forall|i: int|
            0 <= i < v->Object_0.len() && secret_shaped((#[trigger] v->Object_0[i]).0) ==> {
                &&& out->Object_0[i].0 == v->Object_0[i].0
                &&& out->Object_0[i].1 == JsonModel::Str("[REDACTED]"@)
            },
{
    assert forall|i: int|
        0 <= i < v->Object_0.len() && secret_shaped((#[trigger] v->Object_0[i]).0) implies {
        &&& out->Object_0[i].0 == v->Object_0[i].0
        &&& out->Object_0[i].1 == JsonModel::Str("[REDACTED]"@)
    } by {
        let (name, value) = v->Object_0[i];
        if !redacted_wholesale(name, value) {
            assert(value is Str);
            assert(json_scrubbed(s, Some(name), value, out->Object_0[i].1));
        }
    }
}

/// The message of the error returned for fields text that is not JSON.
pub open spec fn not_json_message(m: Seq<char>) -> Seq<char> {
    "fields-json is not valid JSON: "@ + m
}

/// Redact a guest-supplied `fields-json` text: a JSON document is walked
/// and each value redacted by key shape or content, then written back with
/// `serde_json`; text that is not JSON is refused as an invalid argument.
/// A document holding a string that the free-text scrub cannot cut on a
/// character boundary is refused as an internal error.
pub fn scrub_fields(scrubber: &Scrubber, raw: &str) -> (r: Result<String, HostError>)
    ensures
        match serde_json_document(raw@) {
            Err(m) => r matches Err(HostError::InvalidArgument(e)) && e@ == not_json_message(m),
            Ok(doc) => if json_scrub_ok(*scrubber, None, doc) {
                r matches Ok(t) && exists|out: JsonModel|
                    json_scrubbed(*scrubber, None, doc, out) && t@ == serde_json_text(out)
            } else {
                r matches Err(HostError::Internal(e))
                    && e@ == "field text cannot be scrubbed on a character boundary"@
            },
        },
{
    match parse_json_document(raw) {
        Err(m) => {
            let mut v: Vec<char> = Vec::new();
            extend_str(&mut v, "fields-json is not valid JSON: ");
            extend_str(&mut v, m.as_str());
            Err(HostError::InvalidArgument(string_from(v.as_slice())))
        },
        Ok(doc) => {
            if !json_scrub_is_safe(scrubber, None, &doc) {
                return Err(
                    HostError::Internal(
                        "field text cannot be scrubbed on a character boundary".to_owned(),
                    ),
                );
            }
            let out = scrub_json(scrubber, None, &doc);
            Ok(json_text(&out))
        },
    }
}

} // verus!
