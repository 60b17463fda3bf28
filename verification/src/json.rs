//! JSON values, as the guest and the host exchange them.

use serde_json::Value;
use vstd::prelude::*;

verus! {

// ---------------------------------------------------------------------------
// What a JSON value holds
// ---------------------------------------------------------------------------

/// What a JSON value holds. An integer is `Unsigned` where it is not negative;
/// the value of a number with a fraction or an exponent is left out.
pub enum JsonData {
    Null,
    Bool(bool),
    Unsigned(u64),
    Negative(i64),
    Float,
    Str(Seq<char>),
    Array(Seq<JsonData>),
    Object(Map<Seq<char>, JsonData>),
}

/// `serde_json::Value`.
#[verifier::external_type_specification]
#[verifier::external_body]
pub struct ExJsonValue(serde_json::Value);

/// What a `serde_json::Value` holds.
pub uninterp spec fn data(v: Value) -> JsonData;

/// The text that `serde_json::to_vec` writes for a value.
pub uninterp spec fn json_text(v: Value) -> Seq<u8>;

/// What `serde_json::from_slice` reads from some bytes: a value with these
/// contents, or an error with this text.
pub uninterp spec fn parsed_json(bytes: Seq<u8>) -> Result<JsonData, Seq<char>>;

/// The member `key` of an object.
pub open spec fn member(d: JsonData, key: Seq<char>) -> Option<JsonData> {
    match d {
        JsonData::Object(m) => if m.dom().contains(key) {
            Some(m[key])
        } else {
            None
        },
        _ => None,
    }
}

/// The text of a string.
pub open spec fn text_in(d: JsonData) -> Option<Seq<char>> {
    match d {
        JsonData::Str(s) => Some(s),
        _ => None,
    }
}

/// The value of an integer that is not negative.
pub open spec fn unsigned_in(d: JsonData) -> Option<u64> {
    match d {
        JsonData::Unsigned(n) => Some(n),
        _ => None,
    }
}

/// The value of an integer that fits in 64 bits with a sign.
pub open spec fn signed_in(d: JsonData) -> Option<i64> {
    match d {
        JsonData::Unsigned(n) => if n <= i64::MAX {
            Some(n as i64)
        } else {
            None
        },
        JsonData::Negative(n) => Some(n),
        _ => None,
    }
}

/// The value of a boolean.
pub open spec fn bool_in(d: JsonData) -> Option<bool> {
    match d {
        JsonData::Bool(b) => Some(b),
        _ => None,
    }
}

/// The integer `n` as a JSON number.
pub open spec fn integer(n: i64) -> JsonData {
    if n >= 0 {
        JsonData::Unsigned(n as u64)
    } else {
        JsonData::Negative(n)
    }
}

/// An object without members.
pub open spec fn no_members() -> JsonData {
    JsonData::Object(Map::empty())
}

/// The object `d` with its member `key` set.
pub open spec fn with_member(d: JsonData, key: Seq<char>, value: JsonData) -> JsonData {
    JsonData::Object(d->Object_0.insert(key, value))
}

/// An object with one member.
pub open spec fn one_member(key: Seq<char>, value: JsonData) -> JsonData {
    with_member(no_members(), key, value)
}

/// There are no numbers but integers, and at most `depth` levels of arrays and
/// objects.
pub open spec fn is_shallow(d: JsonData, depth: nat) -> bool
    decreases depth,
{
    match d {
        JsonData::Float => false,
        JsonData::Array(s) => depth > 0 && forall|i: int|
            0 <= i < s.len() ==> is_shallow(#[trigger] s[i], (depth - 1) as nat),
        JsonData::Object(m) => depth > 0 && forall|k: Seq<char>|
            m.dom().contains(k) ==> is_shallow(#[trigger] m[k], (depth - 1) as nat),
        _ => true,
    }
}

/// What the result of a call holds: a value, or an error text.
pub open spec fn result_data(r: Result<Value, String>) -> Result<JsonData, Seq<char>> {
    match r {
        Ok(v) => Ok(data(v)),
        Err(m) => Err(m@),
    }
}

/// `r` is the error `m`.
pub open spec fn fails<T>(r: Result<T, String>, m: Seq<char>) -> bool {
    r matches Err(e) && e@ == m
}

// ---------------------------------------------------------------------------
// serde_json
// ---------------------------------------------------------------------------

/// `serde_json::from_slice` into a `Value`. The contract names what it reads, or
/// the text of its error.
#[verifier::external_body]
pub(crate) fn parse_json(bytes: &[u8]) -> (r: Result<Value, String>)
    ensures
        match r {
            Ok(v) => parsed_json(bytes@) == Ok::<JsonData, Seq<char>>(data(v)),
            Err(m) => parsed_json(bytes@) == Err::<JsonData, Seq<char>>(m@),
        },
{
    serde_json::from_slice(bytes).map_err(|e| e.to_string())
}

/// `serde_json::to_vec` of a `Value`, which writes to memory and so does not
/// fail. The contract names the text. It adds that reading the text gives back
/// what the value held, for values without fractions that are not nested more
/// deeply than the reader's limit.
#[verifier::external_body]
pub(crate) fn json_bytes(v: &Value) -> (r: Option<Vec<u8>>)
    ensures
        match r {
            Some(b) => b@ == json_text(*v) && (is_shallow(data(*v), 100) ==> parsed_json(b@) == Ok::<
                JsonData,
                Seq<char>,
            >(data(*v))),
            None => false,
        },
{
    serde_json::to_vec(v).ok()
}

/// `serde_json::Value::get` with a text: the member of that name, where the value
/// is an object that has it.
#[verifier::external_body]
pub(crate) fn get_member<'a>(v: &'a Value, key: &str) -> (r: Option<&'a Value>)
    ensures
        match r {
            Some(m) => member(data(*v), key@) == Some(data(*m)),
            None => member(data(*v), key@) is None,
        },
{
    v.get(key)
}

/// `serde_json::Value::as_str`: the text, where the value is a string.
pub assume_specification[ Value::as_str ](v: &Value) -> (r: Option<&str>)
    ensures
        match r {
            Some(s) => text_in(data(*v)) == Some(s@),
            None => text_in(data(*v)) is None,
        },
;

/// `serde_json::Value::as_u64`: the integer, where the value is one that is not
/// negative.
pub assume_specification[ Value::as_u64 ](v: &Value) -> (r: Option<u64>)
    ensures
        r == unsigned_in(data(*v)),
;

/// `serde_json::Value::as_i64`: the integer, where the value is one that fits.
pub assume_specification[ Value::as_i64 ](v: &Value) -> (r: Option<i64>)
    ensures
        r == signed_in(data(*v)),
;

/// `serde_json::Value::as_bool`: the boolean, where the value is one.
pub assume_specification[ Value::as_bool ](v: &Value) -> (r: Option<bool>)
    ensures
        r == bool_in(data(*v)),
;

/// `<serde_json::Value as Clone>::clone`: a value that holds the same.
pub assume_specification[ <Value as Clone>::clone ](v: &Value) -> (r: Value)
    ensures
        data(r) == data(*v),
;

/// `serde_json::Value::Null`.
#[verifier::external_body]
pub(crate) fn null_value() -> (r: Value)
    ensures
        data(r) == JsonData::Null,
{
    Value::Null
}

/// `serde_json::Value::from` a text: a string.
#[verifier::external_body]
pub(crate) fn string_value(s: &str) -> (r: Value)
    ensures
        data(r) == JsonData::Str(s@),
{
    Value::from(s)
}

/// `serde_json::Value::from` an integer that is not negative.
#[verifier::external_body]
pub(crate) fn unsigned_value(n: u64) -> (r: Value)
    ensures
        data(r) == JsonData::Unsigned(n),
{
    Value::from(n)
}

/// `serde_json::Value::from` an integer.
#[verifier::external_body]
pub(crate) fn integer_value(n: i64) -> (r: Value)
    ensures
        data(r) == integer(n),
{
    Value::from(n)
}

/// `serde_json::Value::from` a boolean.
#[verifier::external_body]
pub(crate) fn bool_value(b: bool) -> (r: Value)
    ensures
        data(r) == JsonData::Bool(b),
{
    Value::from(b)
}

/// `serde_json::Value::Array`: the items in their order.
#[verifier::external_body]
pub(crate) fn array_value(items: Vec<Value>) -> (r: Value)
    ensures
        data(r) == JsonData::Array(items@.map_values(|v: Value| data(v))),
{
    Value::Array(items)
}

/// `serde_json::Value::Object` of `serde_json::Map::new`: an object without
/// members.
#[verifier::external_body]
pub(crate) fn object_value() -> (r: Value)
    ensures
        data(r) == no_members(),
{
    Value::Object(serde_json::Map::new())
}

/// An assignment through `serde_json`'s `IndexMut` with a text, which sets that
/// member of an object, whether or not the object had it.
#[verifier::external_body]
pub(crate) fn set_member(v: &mut Value, key: &str, value: Value)
    requires
        data(*old(v)) is Object,
    ensures
        data(*final(v)) == with_member(data(*old(v)), key@, data(value)),
{
    v[key] = value;
}

// ---------------------------------------------------------------------------
// Members
// ---------------------------------------------------------------------------

/// The text of the member `key`, where there is one and it is a string.
pub open spec fn text_member(d: JsonData, key: Seq<char>) -> Option<Seq<char>> {
    match member(d, key) {
        Some(m) => text_in(m),
        None => None,
    }
}

/// The integer in the member `key`, where there is one that is not negative.
pub open spec fn unsigned_member(d: JsonData, key: Seq<char>) -> Option<u64> {
    match member(d, key) {
        Some(m) => unsigned_in(m),
        None => None,
    }
}

/// The integer in the member `key`, or else `default`.
pub open spec fn signed_member(d: JsonData, key: Seq<char>, default: i64) -> i64 {
    match member(d, key) {
        Some(m) => match signed_in(m) {
            Some(n) => n,
            None => default,
        },
        None => default,
    }
}

/// The boolean in the member `key`, or else `false`.
pub open spec fn flag_member(d: JsonData, key: Seq<char>) -> bool {
    match member(d, key) {
        Some(m) => bool_in(m) == Some(true),
        None => false,
    }
}

/// The text of the member `key`.
pub fn text_field<'a>(v: &'a Value, key: &str) -> (r: Option<&'a str>)
    ensures
        match r {
            Some(s) => text_member(data(*v), key@) == Some(s@),
            None => text_member(data(*v), key@) is None,
        },
{
    match get_member(v, key) {
        Some(m) => m.as_str(),
        None => None,
    }
}

/// The integer in the member `key`, where it is not negative.
pub fn unsigned_field(v: &Value, key: &str) -> (r: Option<u64>)
    ensures
        r == unsigned_member(data(*v), key@),
{
    match get_member(v, key) {
        Some(m) => m.as_u64(),
        None => None,
    }
}

/// The integer in the member `key`, or else `default`.
pub fn signed_field(v: &Value, key: &str, default: i64) -> (r: i64)
    ensures
        r == signed_member(data(*v), key@, default),
{
    match get_member(v, key) {
        Some(m) => match m.as_i64() {
            Some(n) => n,
            None => default,
        },
        None => default,
    }
}

/// The boolean in the member `key`, or else `false`.
pub fn flag_field(v: &Value, key: &str) -> (r: bool)
    ensures
        r == flag_member(data(*v), key@),
{
    match get_member(v, key) {
        Some(m) => match m.as_bool() {
            Some(b) => b,
            None => false,
        },
        None => false,
    }
}

// ---------------------------------------------------------------------------
// Laws
// ---------------------------------------------------------------------------

/// The number under `key`, where there is one that is not negative.
pub open spec fn number_under(m: Map<Seq<char>, JsonData>, key: Seq<char>) -> Option<u64> {
    if m.dom().contains(key) && m[key] is Unsigned {
        Some(m[key]->Unsigned_0)
    } else {
        None
    }
}

/// The text under `key`, where there is one.
pub open spec fn text_under(m: Map<Seq<char>, JsonData>, key: Seq<char>) -> Option<Seq<char>> {
    if m.dom().contains(key) && m[key] is Str {
        Some(m[key]->Str_0)
    } else {
        None
    }
}

/// `true` stands under `key`.
pub open spec fn is_on(m: Map<Seq<char>, JsonData>, key: Seq<char>) -> bool {
    m.dom().contains(key) && m[key] == JsonData::Bool(true)
}

/// Members are read as they stand: a text, a number or a flag under its key, and
/// nothing, or the default, where there is another thing or none.
pub proof fn members_are_read_as_they_stand(
    m: Map<Seq<char>, JsonData>,
    key: Seq<char>,
    default: i64,
)
    ensures
        text_member(JsonData::Object(m), key) == text_under(m, key),
        unsigned_member(JsonData::Object(m), key) == number_under(m, key),
        flag_member(JsonData::Object(m), key) == is_on(m, key),
        ({
            let n = signed_member(JsonData::Object(m), key, default);
            &&& number_under(m, key) matches Some(u) ==> n == if u <= i64::MAX {
                u as i64
            } else {
                default
            }
            &&& m.dom().contains(key) && m[key] is Negative ==> n == m[key]->Negative_0
            &&& !m.dom().contains(key) || m[key] is Null || m[key] is Bool || m[key] is Float
                || m[key] is Str || m[key] is Array || m[key] is Object ==> n == default
        }),
{
}

/// What is no object has no members.
pub proof fn only_objects_have_members(d: JsonData, key: Seq<char>, default: i64)
    requires
        !(d is Object),
    ensures
        text_member(d, key) is None,
        unsigned_member(d, key) is None,
        !flag_member(d, key),
        signed_member(d, key, default) == default,
{
}

/// Setting a member makes it stand under its key, and leaves the others.
pub proof fn setting_a_member_leaves_the_others(
    m: Map<Seq<char>, JsonData>,
    key: Seq<char>,
    value: JsonData,
)
    ensures
        with_member(JsonData::Object(m), key, value) == JsonData::Object(m.insert(key, value)),
        one_member(key, value) == JsonData::Object(Map::empty().insert(key, value)),
        no_members() == JsonData::Object(Map::<Seq<char>, JsonData>::empty()),
{
}

} // verus!
