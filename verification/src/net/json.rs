//! JSON, as the gateways exchange it with clients.
//!
//! The HTTP gateway and the JSON protocol over TCP translate between JSON and the requests and
//! responses of the native protocol; here is the one place where that translation lives. Parsing,
//! printing and holding JSON is `serde_json`'s work.

use vstd::prelude::*;

use super::auth::{hex, push_hex, Role};
use super::protocol::{
    OutcomeModel, outcomes_model, ReadConsistency, Response, ResponseModel, ShardOutcome,
    users_model,
};
use super::server::{kind, NodeFacts, response_kind};
use crate::storage::doubles::nearest_double;
use crate::storage::exec::{Datum, DbValue, row_view, rows_view, DbStatement, StatementModel};
use crate::text::{chars_of, decimal, decimal_string, lower, same, to_lower, views};

verus! {

// ---- JSON --------------------------------------------------------------------------------------

/// `serde_json::Value`, a JSON value.
#[verifier::external_type_specification]
#[verifier::external_body]
pub struct ExJsonValue(serde_json::Value);

/// A JSON number: a whole number in 64 bits, without or with a sign, or the bits of a double.
pub ghost enum NumberModel {
    Whole(u64),
    Negative(i64),
    Double(u64),
}

/// What a JSON value holds.
pub ghost enum JsonModel {
    Null,
    Bool(bool),
    Number(NumberModel),
    Text(Seq<char>),
    List(Seq<JsonModel>),
    Object(Map<Seq<char>, JsonModel>),
}

/// What a `serde_json::Value` holds.
pub uninterp spec fn json_of(v: serde_json::Value) -> JsonModel;

/// What parsing gives: a value, or the parser's message.
pub uninterp spec fn json_read(bytes: Seq<u8>) -> Result<JsonModel, Seq<char>>;

/// How a value is printed, without spaces.
pub uninterp spec fn json_text(v: JsonModel) -> Seq<char>;

pub open spec fn json_list(values: Seq<serde_json::Value>) -> Seq<JsonModel> {
    values.map_values(|v: serde_json::Value| json_of(v))
}

pub open spec fn field_of(v: JsonModel, key: Seq<char>) -> Option<JsonModel> {
    match v {
        JsonModel::Object(m) => if m.dom().contains(key) {
            Some(m[key])
        } else {
            None
        },
        _ => None,
    }
}

pub open spec fn text_of(v: JsonModel) -> Option<Seq<char>> {
    match v {
        JsonModel::Text(s) => Some(s),
        _ => None,
    }
}

pub open spec fn flag_of(v: JsonModel) -> Option<bool> {
    match v {
        JsonModel::Bool(b) => Some(b),
        _ => None,
    }
}

pub open spec fn items_of(v: JsonModel) -> Option<Seq<JsonModel>> {
    match v {
        JsonModel::List(items) => Some(items),
        _ => None,
    }
}

pub open spec fn whole_of(v: JsonModel) -> Option<u64> {
    match v {
        JsonModel::Number(NumberModel::Whole(n)) => Some(n),
        _ => None,
    }
}

pub open spec fn integer_of(v: JsonModel) -> Option<i64> {
    match v {
        JsonModel::Number(NumberModel::Whole(n)) => if n <= i64::MAX {
            Some(n as i64)
        } else {
            None
        },
        JsonModel::Number(NumberModel::Negative(n)) => Some(n),
        _ => None,
    }
}

/// The double nearest to a whole number.
pub open spec fn double_near(n: int) -> u64 {
    if n >= 0 {
        nearest_double(n as nat) as u64
    } else {
        (0x8000_0000_0000_0000 + nearest_double((-n) as nat)) as u64
    }
}

pub open spec fn double_of(v: JsonModel) -> Option<u64> {
    match v {
        JsonModel::Number(NumberModel::Whole(n)) => Some(double_near(n as int)),
        JsonModel::Number(NumberModel::Negative(n)) => Some(double_near(n as int)),
        JsonModel::Number(NumberModel::Double(bits)) => Some(bits),
        _ => None,
    }
}

pub open spec fn whole(n: u64) -> JsonModel {
    JsonModel::Number(NumberModel::Whole(n))
}

pub open spec fn integer(n: i64) -> JsonModel {
    if n < 0 {
        JsonModel::Number(NumberModel::Negative(n))
    } else {
        JsonModel::Number(NumberModel::Whole(n as u64))
    }
}

/// `serde_json::from_slice`, into a `serde_json::Value`: the value that the bytes are the text of,
/// or the parser's message.
#[verifier::external_body]
pub(crate) fn parse_json(bytes: &Vec<u8>) -> (r: Result<serde_json::Value, String>)
    ensures
        match r {
            Ok(v) => json_read(bytes@) == Ok::<JsonModel, Seq<char>>(json_of(v)),
            Err(m) => json_read(bytes@) == Err::<JsonModel, Seq<char>>(m@),
        },
{
    serde_json::from_slice::<serde_json::Value>(bytes).map_err(|e| e.to_string())
}

/// `serde_json::Value::to_string`: the compact text of a value.
#[verifier::external_body]
pub(crate) fn print_json(v: &serde_json::Value) -> (r: String)
    ensures
        r@ == json_text(json_of(*v)),
{
    v.to_string()
}

/// `serde_json::Value::get` with a key: the field of an object; nothing of any other value.
#[verifier::external_body]
pub(crate) fn field<'a>(v: &'a serde_json::Value, key: &str) -> (r: Option<&'a serde_json::Value>)
    ensures
        match r {
            Some(f) => field_of(json_of(*v), key@) == Some(json_of(*f)),
            None => field_of(json_of(*v), key@) is None,
        },
{
    v.get(key)
}

/// `serde_json::Value::as_str`: a string's text.
#[verifier::external_body]
pub(crate) fn as_text<'a>(v: &'a serde_json::Value) -> (r: Option<&'a str>)
    ensures
        match r {
            Some(s) => text_of(json_of(*v)) == Some(s@),
            None => text_of(json_of(*v)) is None,
        },
{
    v.as_str()
}

/// `serde_json::Value::as_bool`.
#[verifier::external_body]
pub(crate) fn as_flag(v: &serde_json::Value) -> (r: Option<bool>)
    ensures
        r == flag_of(json_of(*v)),
{
    v.as_bool()
}

/// `serde_json::Value::as_u64`: a whole number without a sign.
#[verifier::external_body]
pub(crate) fn as_whole(v: &serde_json::Value) -> (r: Option<u64>)
    ensures
        r == whole_of(json_of(*v)),
{
    v.as_u64()
}

/// `serde_json::Value::as_i64`: a whole number that fits 64 bits with a sign.
#[verifier::external_body]
pub(crate) fn as_integer(v: &serde_json::Value) -> (r: Option<i64>)
    ensures
        r == integer_of(json_of(*v)),
{
    v.as_i64()
}

/// `serde_json::Value::as_f64`: a number as the bits of a double, the nearest one to a whole
/// number.
#[verifier::external_body]
pub(crate) fn as_double(v: &serde_json::Value) -> (r: Option<u64>)
    ensures
        r == double_of(json_of(*v)),
{
    v.as_f64().map(|f| f.to_bits())
}

/// `serde_json::Value::as_array`: the items of a list.
#[verifier::external_body]
pub(crate) fn as_items<'a>(v: &'a serde_json::Value) -> (r: Option<&'a Vec<serde_json::Value>>)
    ensures
        match r {
            Some(items) => items_of(json_of(*v)) == Some(json_list(items@)),
            None => items_of(json_of(*v)) is None,
        },
{
    v.as_array()
}

/// `serde_json::Value::is_null`.
#[verifier::external_body]
pub(crate) fn is_nothing(v: &serde_json::Value) -> (r: bool)
    ensures
        r == (json_of(*v) == JsonModel::Null),
{
    v.is_null()
}

/// `serde_json::Value::Null`.
#[verifier::external_body]
pub(crate) fn from_nothing() -> (r: serde_json::Value)
    ensures
        json_of(r) == JsonModel::Null,
{
    serde_json::Value::Null
}

/// `serde_json::Value::from`, of a `bool`.
#[verifier::external_body]
pub(crate) fn from_flag(b: bool) -> (r: serde_json::Value)
    ensures
        json_of(r) == JsonModel::Bool(b),
{
    serde_json::Value::from(b)
}

/// `serde_json::Value::from`, of a `u64`.
#[verifier::external_body]
pub(crate) fn from_whole(n: u64) -> (r: serde_json::Value)
    ensures
        json_of(r) == whole(n),
{
    serde_json::Value::from(n)
}

/// `serde_json::Value::from`, of an `i64`: below zero it is held with its sign.
#[verifier::external_body]
pub(crate) fn from_integer(n: i64) -> (r: serde_json::Value)
    ensures
        json_of(r) == integer(n),
{
    serde_json::Value::from(n)
}

/// `serde_json::Value::from`, of a `String`.
#[verifier::external_body]
pub(crate) fn from_string(s: String) -> (r: serde_json::Value)
    ensures
        json_of(r) == JsonModel::Text(s@),
{
    serde_json::Value::from(s)
}

/// `serde_json::Value::from`, of a vector of values.
#[verifier::external_body]
pub(crate) fn from_items(items: Vec<serde_json::Value>) -> (r: serde_json::Value)
    ensures
        json_of(r) == JsonModel::List(json_list(items@)),
{
    serde_json::Value::from(items)
}

/// The map that some entries give: of two with one key the later counts.
pub open spec fn entries_map(entries: Seq<(String, serde_json::Value)>) -> Map<Seq<char>, JsonModel>
    decreases entries.len(),
{
    if entries.len() == 0 {
        Map::empty()
    } else {
        entries_map(entries.drop_last()).insert(entries.last().0@, json_of(entries.last().1))
    }
}

/// `serde_json::Map::from_iter`, as a `serde_json::Value::Object`: an object of these entries, of
/// two with one key the later.
#[verifier::external_body]
pub(crate) fn from_entries(entries: Vec<(String, serde_json::Value)>) -> (r: serde_json::Value)
    ensures
        json_of(r) == JsonModel::Object(entries_map(entries@)),
{
    serde_json::Value::Object(entries.into_iter().collect::<serde_json::Map<_, _>>())
}

/// An object in the making.
pub struct Fields {
    entries: Vec<(String, serde_json::Value)>,
}

impl View for Fields {
    type V = Map<Seq<char>, JsonModel>;

    closed spec fn view(&self) -> Map<Seq<char>, JsonModel> {
        entries_map(self.entries@)
    }
}

/// The fields of an object before any is set.
pub open spec fn no_fields() -> Map<Seq<char>, JsonModel> {
    Map::empty()
}

impl Fields {
    pub fn new() -> (r: Fields)
        ensures
            r@ == no_fields(),
    {
        Fields { entries: Vec::new() }
    }

    /// With a field more.
    pub fn with(self, key: &str, value: serde_json::Value) -> (r: Fields)
        ensures
            r@ == self@.insert(key@, json_of(value)),
    {
        let mut entries = self.entries;
        let ghost before = entries@;
        entries.push((key.to_owned(), value));
        assert(entries@.drop_last() =~= before);
        Fields { entries }
    }

    pub fn with_text(self, key: &str, value: &str) -> (r: Fields)
        ensures
            r@ == self@.insert(key@, JsonModel::Text(value@)),
    {
        self.with(key, from_string(value.to_owned()))
    }

    pub fn with_flag(self, key: &str, value: bool) -> (r: Fields)
        ensures
            r@ == self@.insert(key@, JsonModel::Bool(value)),
    {
        self.with(key, from_flag(value))
    }

    pub fn with_whole(self, key: &str, value: u64) -> (r: Fields)
        ensures
            r@ == self@.insert(key@, whole(value)),
    {
        self.with(key, from_whole(value))
    }

    pub fn with_integer(self, key: &str, value: i64) -> (r: Fields)
        ensures
            r@ == self@.insert(key@, integer(value)),
    {
        self.with(key, from_integer(value))
    }

    /// With a number, or null where there is none.
    pub fn with_maybe(self, key: &str, value: Option<u64>) -> (r: Fields)
        ensures
            r@ == self@.insert(key@, maybe(value)),
    {
        match value {
            Some(n) => self.with_whole(key, n),
            None => self.with(key, from_nothing()),
        }
    }

    pub fn done(self) -> (r: serde_json::Value)
        ensures
            json_of(r) == JsonModel::Object(self@),
    {
        from_entries(self.entries)
    }
}

/// A number, or null where there is none.
pub open spec fn maybe(n: Option<u64>) -> JsonModel {
    match n {
        Some(n) => whole(n),
        None => JsonModel::Null,
    }
}

// ---- SQL values --------------------------------------------------------------------------------

/// Some bytes as JSON: a list of numbers.
pub open spec fn json_bytes(b: Seq<u8>) -> JsonModel {
    JsonModel::List(b.map_values(|x: u8| whole(x as u64)))
}

/// Whether this is the JSON that `show` gives the double with some bits.
pub open spec fn double_shows<R: Fn(u64) -> serde_json::Value>(
    show: R,
    bits: u64,
    j: JsonModel,
) -> bool {
    exists|v: serde_json::Value| #[trigger] call_ensures(show, (bits,), v) && j == json_of(v)
}

/// Whether this is the JSON of a value. A blob is a list of its bytes; a double is what `show` makes
/// of its bits.
pub open spec fn value_shows<R: Fn(u64) -> serde_json::Value>(
    show: R,
    d: Datum,
    j: JsonModel,
) -> bool {
    match d {
        Datum::Null => j == JsonModel::Null,
        Datum::Integer(n) => j == integer(n),
        Datum::Real(bits) => double_shows(show, bits, j),
        Datum::Text(s) => j == JsonModel::Text(s),
        Datum::Blob(b) => j == json_bytes(b),
    }
}

/// Whether this is the JSON of a row: the list of its values.
pub open spec fn row_shows<R: Fn(u64) -> serde_json::Value>(
    show: R,
    row: Seq<Datum>,
    j: JsonModel,
) -> bool {
    j matches JsonModel::List(items) && items.len() == row.len() && forall|i: int|
        0 <= i < row.len() ==> value_shows(show, row[i], #[trigger] items[i])
}

/// Whether this is the JSON of some rows.
pub open spec fn rows_show<R: Fn(u64) -> serde_json::Value>(
    show: R,
    rows: Seq<Seq<Datum>>,
    j: JsonModel,
) -> bool {
    j matches JsonModel::List(items) && items.len() == rows.len() && forall|i: int|
        0 <= i < rows.len() ==> row_shows(show, rows[i], #[trigger] items[i])
}

pub open spec fn json_texts(v: Seq<Seq<char>>) -> JsonModel {
    JsonModel::List(v.map_values(|s: Seq<char>| JsonModel::Text(s)))
}

fn bytes_to_json(b: &Vec<u8>) -> (r: serde_json::Value)
    ensures
        json_of(r) == json_bytes(b@),
{
    let ghost model = b@.map_values(|x: u8| whole(x as u64));
    let mut items: Vec<serde_json::Value> = Vec::with_capacity(b.len());
    let mut i: usize = 0;
    while i < b.len()
        invariant
            i <= b@.len(),
            model == b@.map_values(|x: u8| whole(x as u64)),
            json_list(items@) =~= model.take(i as int),
        decreases b@.len() - i,
    {
        let ghost before = items@;
        items.push(from_whole(b[i] as u64));
        assert(json_list(items@) =~= json_list(before).push(model[i as int]));
        i = i + 1;
    }
    assert(model.take(b@.len() as int) =~= model);
    from_items(items)
}

/// One SQL value as JSON. `show` gives the JSON of the double with some bits.
pub fn value_to_json<R: Fn(u64) -> serde_json::Value>(v: &DbValue, show: &R) -> (r:
    serde_json::Value)
    requires
        forall|bits: u64| #[trigger] call_requires(*show, (bits,)),
    ensures
        value_shows(*show, v@, json_of(r)),
{
    match v {
        DbValue::Null => from_nothing(),
        DbValue::Integer(n) => from_integer(*n),
        DbValue::Real(bits) => {
            let j = show(*bits);
            assert(call_ensures(*show, (*bits,), j));
            assert(double_shows(*show, *bits, json_of(j)));
            j
        },
        DbValue::Text(s) => from_string(s.clone()),
        DbValue::Blob(b) => bytes_to_json(b),
    }
}

/// A row as JSON: the list of its values.
pub fn row_to_json<R: Fn(u64) -> serde_json::Value>(row: &Vec<DbValue>, show: &R) -> (r:
    serde_json::Value)
    requires
        forall|bits: u64| #[trigger] call_requires(*show, (bits,)),
    ensures
        row_shows(*show, row_view(row@), json_of(r)),
{
    let mut items: Vec<serde_json::Value> = Vec::with_capacity(row.len());
    let mut i: usize = 0;
    while i < row.len()
        invariant
            i <= row@.len(),
            items@.len() == i,
            forall|bits: u64| #[trigger] call_requires(*show, (bits,)),
            forall|k: int|
                0 <= k < i ==> value_shows(*show, row@[k]@, json_of(#[trigger] items@[k])),
        decreases row@.len() - i,
    {
        items.push(value_to_json(&row[i], show));
        i = i + 1;
    }
    let ghost model = json_list(items@);
    assert forall|k: int| 0 <= k < row@.len() implies value_shows(
        *show,
        row_view(row@)[k],
        #[trigger] model[k],
    ) by {
        assert(model[k] == json_of(items@[k]));
    }
    from_items(items)
}

fn rows_to_json<R: Fn(u64) -> serde_json::Value>(rows: &Vec<Vec<DbValue>>, show: &R) -> (r:
    serde_json::Value)
    requires
        forall|bits: u64| #[trigger] call_requires(*show, (bits,)),
    ensures
        rows_show(*show, rows_view(rows@), json_of(r)),
{
    let mut items: Vec<serde_json::Value> = Vec::with_capacity(rows.len());
    let mut i: usize = 0;
    while i < rows.len()
        invariant
            i <= rows@.len(),
            items@.len() == i,
            forall|bits: u64| #[trigger] call_requires(*show, (bits,)),
            forall|k: int|
                0 <= k < i ==> row_shows(*show, row_view(rows@[k]@), json_of(#[trigger] items@[k])),
        decreases rows@.len() - i,
    {
        items.push(row_to_json(&rows[i], show));
        i = i + 1;
    }
    let ghost model = json_list(items@);
    assert forall|k: int| 0 <= k < rows@.len() implies row_shows(
        *show,
        rows_view(rows@)[k],
        #[trigger] model[k],
    ) by {
        assert(model[k] == json_of(items@[k]));
    }
    from_items(items)
}

/// Some texts as JSON.
pub fn texts_to_json(v: &Vec<String>) -> (r: serde_json::Value)
    ensures
        json_of(r) == json_texts(views(v@)),
{
    let ghost model = views(v@).map_values(|s: Seq<char>| JsonModel::Text(s));
    let mut items: Vec<serde_json::Value> = Vec::with_capacity(v.len());
    let mut i: usize = 0;
    while i < v.len()
        invariant
            i <= v@.len(),
            model == views(v@).map_values(|s: Seq<char>| JsonModel::Text(s)),
            json_list(items@) =~= model.take(i as int),
        decreases v@.len() - i,
    {
        let ghost before = items@;
        items.push(from_string(v[i].clone()));
        assert(json_list(items@) =~= json_list(before).push(model[i as int]));
        i = i + 1;
    }
    assert(model.take(v@.len() as int) =~= model);
    from_items(items)
}

// ---- parameters --------------------------------------------------------------------------------

/// A bound parameter: null, a truth value as 0 or 1, a number, a text. A list or an object is none.
pub open spec fn param(v: JsonModel) -> Option<Datum> {
    match v {
        JsonModel::Null => Some(Datum::Null),
        JsonModel::Bool(b) => Some(
            Datum::Integer(
                if b {
                    1
                } else {
                    0
                },
            ),
        ),
        JsonModel::Number(_) => match integer_of(v) {
            Some(n) => Some(Datum::Integer(n)),
            None => match double_of(v) {
                Some(bits) => Some(Datum::Real(bits)),
                None => None,
            },
        },
        JsonModel::Text(s) => Some(Datum::Text(s)),
        _ => None,
    }
}

pub open spec fn param_refusal(v: JsonModel) -> Seq<char> {
    "unsupported parameter type: "@ + json_text(v)
}

/// The first `n` parameters, or the refusal of the first that is none.
pub open spec fn params_of(vals: Seq<JsonModel>, n: nat) -> Result<Seq<Datum>, Seq<char>>
    decreases n,
{
    if n == 0 || n > vals.len() {
        Ok(Seq::empty())
    } else {
        match params_of(vals, (n - 1) as nat) {
            Err(m) => Err(m),
            Ok(done) => match param(vals[n - 1]) {
                Some(d) => Ok(done.push(d)),
                None => Err(param_refusal(vals[n - 1])),
            },
        }
    }
}

proof fn lemma_params_stop(vals: Seq<JsonModel>, n: nat, m: nat)
    requires
        n <= m <= vals.len(),
        params_of(vals, n) is Err,
    ensures
        params_of(vals, m) == params_of(vals, n),
    decreases m,
{
    if n < m {
        lemma_params_stop(vals, n, (m - 1) as nat);
    }
}

fn json_param(v: &serde_json::Value) -> (r: Result<DbValue, String>)
    ensures
        match param(json_of(*v)) {
            Some(d) => r matches Ok(x) && x@ == d,
            None => r matches Err(m) && m@ == param_refusal(json_of(*v)),
        },
{
    if is_nothing(v) {
        return Ok(DbValue::Null);
    }
    if let Some(b) = as_flag(v) {
        return Ok(
            DbValue::Integer(
                if b {
                    1
                } else {
                    0
                },
            ),
        );
    }
    if let Some(n) = as_integer(v) {
        return Ok(DbValue::Integer(n));
    }
    if let Some(bits) = as_double(v) {
        return Ok(DbValue::Real(bits));
    }
    if let Some(s) = as_text(v) {
        return Ok(DbValue::Text(s.to_owned()));
    }
    let mut m = "unsupported parameter type: ".to_owned();
    let shown = print_json(v);
    m.append(shown.as_str());
    Err(m)
}

/// JSON parameters as SQL values.
pub fn json_params(vals: &Vec<serde_json::Value>) -> (r: Result<Vec<DbValue>, String>)
    ensures
        match params_of(json_list(vals@), vals@.len()) {
            Ok(row) => r matches Ok(v) && row_view(v@) == row,
            Err(m) => r matches Err(e) && e@ == m,
        },
{
    let ghost model = json_list(vals@);
    let mut out: Vec<DbValue> = Vec::new();
    let mut i: usize = 0;
    assert(row_view(out@) =~= Seq::empty());
    while i < vals.len()
        invariant
            i <= vals@.len(),
            model == json_list(vals@),
            params_of(model, i as nat) == Ok::<Seq<Datum>, Seq<char>>(row_view(out@)),
        decreases vals@.len() - i,
    {
        assert(model[i as int] == json_of(vals@[i as int]));
        let ghost before = out@;
        match json_param(&vals[i]) {
            Ok(v) => {
                let ghost d = v@;
                out.push(v);
                assert(row_view(out@) =~= row_view(before).push(d));
            },
            Err(m) => {
                proof {
                    lemma_params_stop(model, (i + 1) as nat, vals@.len());
                }
                return Err(m);
            },
        }
        i = i + 1;
    }
    Ok(out)
}

/// A statement with its parameters, or why there is none.
pub open spec fn statement_of(sql: Seq<char>, params: Seq<JsonModel>) -> Result<
    StatementModel,
    Seq<char>,
> {
    match params_of(params, params.len()) {
        Ok(row) => Ok(StatementModel { sql, params: row }),
        Err(m) => Err(m),
    }
}

/// Builds a statement from its text and its JSON parameters.
pub fn statement_from(sql: &str, params: &Vec<serde_json::Value>) -> (r: Result<DbStatement, String>)
    ensures
        match statement_of(sql@, json_list(params@)) {
            Ok(s) => r matches Ok(x) && x@ == s,
            Err(m) => r matches Err(e) && e@ == m,
        },
{
    match json_params(params) {
        Ok(row) => Ok(DbStatement::with_params(sql, row)),
        Err(m) => Err(m),
    }
}

/// The freshness that a JSON value asks for: `"stale"`, `{"at_least_lsn": n}`, or the strongest.
pub open spec fn consistency_of(v: Option<JsonModel>) -> ReadConsistency {
    match v {
        Some(JsonModel::Text(s)) => if s == "stale"@ {
            ReadConsistency::Stale
        } else {
            ReadConsistency::Linearizable
        },
        Some(o) => match field_of(o, "at_least_lsn"@) {
            Some(n) => match whole_of(n) {
                Some(lsn) => ReadConsistency::AtLeastLsn(lsn),
                None => ReadConsistency::Linearizable,
            },
            None => ReadConsistency::Linearizable,
        },
        None => ReadConsistency::Linearizable,
    }
}

pub open spec fn json_option(v: Option<&serde_json::Value>) -> Option<JsonModel> {
    match v {
        Some(x) => Some(json_of(*x)),
        None => None,
    }
}

/// Reads the freshness that a client asks for.
pub fn consistency_from(v: Option<&serde_json::Value>) -> (r: ReadConsistency)
    ensures
        r == consistency_of(json_option(v)),
{
    let v = match v {
        Some(v) => v,
        None => {
            return ReadConsistency::Linearizable;
        },
    };
    if let Some(s) = as_text(v) {
        if same(s, "stale") {
            return ReadConsistency::Stale;
        }
        return ReadConsistency::Linearizable;
    }
    match field(v, "at_least_lsn") {
        Some(n) => match as_whole(n) {
            Some(lsn) => ReadConsistency::AtLeastLsn(lsn),
            None => ReadConsistency::Linearizable,
        },
        None => ReadConsistency::Linearizable,
    }
}

// ---- responses ---------------------------------------------------------------------------------

pub open spec fn outcome_json(o: (u32, OutcomeModel)) -> JsonModel {
    JsonModel::Object(
        no_fields().insert("shard"@, whole(o.0 as u64)).insert(
            "ok"@,
            JsonModel::Bool(o.1 is Applied),
        ).insert(
            "error"@,
            match o.1 {
                OutcomeModel::Rejected(m) => JsonModel::Text(m),
                OutcomeModel::Applied => JsonModel::Null,
            },
        ),
    )
}

pub open spec fn user_json(u: (Seq<char>, Role)) -> JsonModel {
    JsonModel::Object(
        no_fields().insert("name"@, JsonModel::Text(u.0)).insert(
            "role"@,
            JsonModel::Text(u.1.shown()),
        ),
    )
}

/// The JSON body of rows.
pub open spec fn rows_body(columns: Seq<Seq<char>>, rows: JsonModel) -> JsonModel {
    JsonModel::Object(no_fields().insert("columns"@, json_texts(columns)).insert("rows"@, rows))
}

/// Whether this is the JSON of a table.
pub open spec fn table_shows<R: Fn(u64) -> serde_json::Value>(
    show: R,
    columns: Seq<Seq<char>>,
    rows: Seq<Seq<Datum>>,
    j: JsonModel,
) -> bool {
    exists|shown: JsonModel| #[trigger]
        rows_show(show, rows, shown) && j == rows_body(columns, shown)
}

/// Whether this is the JSON body of a response.
pub open spec fn body_shows<R: Fn(u64) -> serde_json::Value>(
    show: R,
    r: ResponseModel,
    j: JsonModel,
) -> bool {
    match r {
        ResponseModel::Rows { columns, rows } => table_shows(show, columns, rows, j),
        other => j == body_of(other),
    }
}

/// The JSON body of a response other than rows.
pub open spec fn body_of(r: ResponseModel) -> JsonModel {
    JsonModel::Object(
        match r {
            ResponseModel::Changed { rows_affected, last_insert_rowid } => no_fields().insert(
                "rows_affected"@,
                whole(rows_affected),
            ).insert("last_insert_rowid"@, integer(last_insert_rowid)),
            ResponseModel::Done => no_fields().insert("ok"@, JsonModel::Bool(true)),
            ResponseModel::AllShards { outcomes } => no_fields().insert(
                "shards"@,
                JsonModel::List(outcomes.map_values(|o: (u32, OutcomeModel)| outcome_json(o))),
            ),
            ResponseModel::Routed { shard } => no_fields().insert("shard"@, whole(shard as u64)),
            ResponseModel::SchemaVersion { shard, version } => no_fields().insert(
                "shard"@,
                whole(shard as u64),
            ).insert("version"@, integer(version)),
            ResponseModel::TooStale { shard, have, need } => no_fields().insert(
                "error"@,
                JsonModel::Text("too stale"@),
            ).insert("shard"@, whole(shard as u64)).insert("have"@, whole(have)).insert(
                "need"@,
                whole(need),
            ),
            ResponseModel::Users { users } => no_fields().insert(
                "users"@,
                JsonModel::List(users.map_values(|u: (Seq<char>, Role)| user_json(u))),
            ),
            ResponseModel::Rejected { message } => no_fields().insert(
                "error"@,
                JsonModel::Text(message),
            ).insert("rejected"@, JsonModel::Bool(true)),
            ResponseModel::Error { message, retryable } => no_fields().insert(
                "error"@,
                JsonModel::Text(message),
            ).insert("retryable"@, JsonModel::Bool(retryable)),
            other => no_fields().insert(
                "error"@,
                JsonModel::Text("unexpected response: "@ + kind(other)),
            ),
        },
    )
}

fn outcomes_to_json(outcomes: &Vec<(u32, ShardOutcome)>) -> (r: serde_json::Value)
    ensures
        json_of(r) == JsonModel::List(
            outcomes_model(outcomes@).map_values(|o: (u32, OutcomeModel)| outcome_json(o)),
        ),
{
    let ghost model = outcomes_model(outcomes@).map_values(
        |o: (u32, OutcomeModel)| outcome_json(o),
    );
    let mut items: Vec<serde_json::Value> = Vec::with_capacity(outcomes.len());
    let mut i: usize = 0;
    while i < outcomes.len()
        invariant
            i <= outcomes@.len(),
            model == outcomes_model(outcomes@).map_values(
                |o: (u32, OutcomeModel)| outcome_json(o),
            ),
            json_list(items@) =~= model.take(i as int),
        decreases outcomes@.len() - i,
    {
        let ghost before = items@;
        let shard = Fields::new().with_whole("shard", outcomes[i].0 as u64);
        let item = match &outcomes[i].1 {
            ShardOutcome::Applied => shard.with_flag("ok", true).with("error", from_nothing()),
            ShardOutcome::Rejected(m) => shard.with_flag("ok", false).with_text(
                "error",
                m.as_str(),
            ),
        };
        items.push(item.done());
        assert(json_list(items@) =~= json_list(before).push(model[i as int]));
        i = i + 1;
    }
    assert(model.take(outcomes@.len() as int) =~= model);
    from_items(items)
}

fn users_to_json(users: &Vec<(String, Role)>) -> (r: serde_json::Value)
    ensures
        json_of(r) == JsonModel::List(
            users_model(users@).map_values(|u: (Seq<char>, Role)| user_json(u)),
        ),
{
    let ghost model = users_model(users@).map_values(|u: (Seq<char>, Role)| user_json(u));
    let mut items: Vec<serde_json::Value> = Vec::with_capacity(users.len());
    let mut i: usize = 0;
    while i < users.len()
        invariant
            i <= users@.len(),
            model == users_model(users@).map_values(|u: (Seq<char>, Role)| user_json(u)),
            json_list(items@) =~= model.take(i as int),
        decreases users@.len() - i,
    {
        let ghost before = items@;
        let item = Fields::new().with_text("name", users[i].0.as_str()).with_text(
            "role",
            users[i].1.name(),
        );
        items.push(item.done());
        assert(json_list(items@) =~= json_list(before).push(model[i as int]));
        i = i + 1;
    }
    assert(model.take(users@.len() as int) =~= model);
    from_items(items)
}

/// A response as its JSON body.
pub fn response_json_body<R: Fn(u64) -> serde_json::Value>(resp: Response, show: &R) -> (r:
    serde_json::Value)
    requires
        forall|bits: u64| #[trigger] call_requires(*show, (bits,)),
    ensures
        body_shows(*show, resp@, json_of(r)),
{
    let f = Fields::new();
    let f = match resp {
        Response::Rows { columns, rows } => {
            let shown = rows_to_json(&rows, show);
            let r = f.with("columns", texts_to_json(&columns)).with("rows", shown).done();
            proof {
                assert(rows_show(*show, rows_view(rows@), json_of(shown)));
                assert(json_of(r) == rows_body(views(columns@), json_of(shown)));
            }
            assert(table_shows(*show, views(columns@), rows_view(rows@), json_of(r)));
            return r;
        },
        Response::Changed { rows_affected, last_insert_rowid } => f.with_whole(
            "rows_affected",
            rows_affected,
        ).with_integer("last_insert_rowid", last_insert_rowid),
        Response::Done => f.with_flag("ok", true),
        Response::AllShards { outcomes } => f.with("shards", outcomes_to_json(&outcomes)),
        Response::Routed { shard } => f.with_whole("shard", shard as u64),
        Response::SchemaVersion { shard, version } => f.with_whole(
            "shard",
            shard as u64,
        ).with_integer("version", version),
        Response::TooStale { shard, have, need } => f.with_text("error", "too stale").with_whole(
            "shard",
            shard as u64,
        ).with_whole("have", have).with_whole("need", need),
        Response::Users { users } => f.with("users", users_to_json(&users)),
        Response::Rejected { message } => f.with_text("error", message.as_str()).with_flag(
            "rejected",
            true,
        ),
        Response::Error { message, retryable } => f.with_text("error", message.as_str()).with_flag(
            "retryable",
            retryable,
        ),
        other => {
            let mut m = "unexpected response: ".to_owned();
            m.append(response_kind(&other));
            f.with_text("error", m.as_str())
        },
    };
    f.done()
}

// ---- statuses ----------------------------------------------------------------------------------

/// Whether a text holds a word somewhere.
pub open spec fn mentions(s: Seq<char>, word: Seq<char>) -> bool {
    exists|i: int|
        0 <= i <= s.len() - word.len() && #[trigger] s.subrange(i, i + word.len()) == word
}

/// Whether a text holds a word somewhere.
pub fn text_mentions(s: &str, word: &str) -> (r: bool)
    ensures
        r == mentions(s@, word@),
{
    let chars = chars_of(s);
    let sought = chars_of(word);
    if chars.len() < sought.len() {
        return false;
    }
    let last: usize = chars.len() - sought.len();
    let mut i: usize = 0;
    loop
        invariant
            chars@ == s@,
            sought@ == word@,
            last == chars@.len() - sought@.len(),
            i <= last,
            forall|k: int|
                0 <= k < i ==> #[trigger] chars@.subrange(k, k + sought@.len()) != sought@,
        decreases last - i,
    {
        if holds_at(&chars, i, &sought) {
            return true;
        }
        if i == last {
            return false;
        }
        i = i + 1;
    }
}

fn holds_at(chars: &Vec<char>, at: usize, word: &Vec<char>) -> (r: bool)
    requires
        at + word@.len() <= chars@.len(),
    ensures
        r == (chars@.subrange(at as int, at + word@.len()) == word@),
{
    let ghost part = chars@.subrange(at as int, at + word@.len());
    let mut j: usize = 0;
    while j < word.len()
        invariant
            j <= word@.len(),
            at + word@.len() <= chars@.len(),
            chars.len() == chars@.len(),
            part == chars@.subrange(at as int, at + word@.len()),
            forall|k: int| 0 <= k < j ==> part[k] == word@[k],
        decreases word@.len() - j,
    {
        if chars[at + j] != word[j] {
            assert(part[j as int] != word@[j as int]);
            return false;
        }
        assert(part[j as int] == word@[j as int]);
        j = j + 1;
    }
    assert(part =~= word@);
    true
}

/// The HTTP status of a response.
pub open spec fn status_of(r: ResponseModel) -> u16 {
    match r {
        ResponseModel::Rejected { .. } => 400,
        ResponseModel::TooStale { .. } => 409,
        ResponseModel::Error { message, retryable } => if retryable {
            503
        } else if mentions(message, "not the leader"@) {
            409
        } else if mentions(message, "authentication"@) {
            401
        } else if mentions(message, "not permitted"@) {
            403
        } else {
            400
        },
        _ => 200,
    }
}

/// The HTTP status that a response stands for, so that both gateways agree on success and fault.
pub fn response_status(resp: &Response) -> (r: u16)
    ensures
        r == status_of(resp@),
{
    match resp {
        Response::Rejected { .. } => 400,
        Response::TooStale { .. } => 409,
        Response::Error { message, retryable } => if *retryable {
            503
        } else if text_mentions(message.as_str(), "not the leader") {
            409
        } else if text_mentions(message.as_str(), "authentication") {
            401
        } else if text_mentions(message.as_str(), "not permitted") {
            403
        } else {
            400
        },
        _ => 200,
    }
}

// ---- what a node reports -----------------------------------------------------------------------

/// Some numbers as JSON.
pub open spec fn json_numbers(v: Seq<u64>) -> JsonModel {
    JsonModel::List(v.map_values(|n: u64| whole(n)))
}

pub fn numbers_to_json(v: &Vec<u64>) -> (r: serde_json::Value)
    ensures
        json_of(r) == json_numbers(v@),
{
    let ghost model = v@.map_values(|n: u64| whole(n));
    let mut items: Vec<serde_json::Value> = Vec::with_capacity(v.len());
    let mut i: usize = 0;
    while i < v.len()
        invariant
            i <= v@.len(),
            model == v@.map_values(|n: u64| whole(n)),
            json_list(items@) =~= model.take(i as int),
        decreases v@.len() - i,
    {
        let ghost before = items@;
        items.push(from_whole(v[i]));
        assert(json_list(items@) =~= json_list(before).push(model[i as int]));
        i = i + 1;
    }
    assert(model.take(v@.len() as int) =~= model);
    from_items(items)
}

/// Some shard numbers as JSON.
pub open spec fn json_shards(v: Seq<u32>) -> JsonModel {
    JsonModel::List(v.map_values(|n: u32| whole(n as u64)))
}

pub fn shards_to_json(v: &Vec<u32>) -> (r: serde_json::Value)
    ensures
        json_of(r) == json_shards(v@),
{
    let ghost model = v@.map_values(|n: u32| whole(n as u64));
    let mut items: Vec<serde_json::Value> = Vec::with_capacity(v.len());
    let mut i: usize = 0;
    while i < v.len()
        invariant
            i <= v@.len(),
            model == v@.map_values(|n: u32| whole(n as u64)),
            json_list(items@) =~= model.take(i as int),
        decreases v@.len() - i,
    {
        let ghost before = items@;
        items.push(from_whole(v[i] as u64));
        assert(json_list(items@) =~= json_list(before).push(model[i as int]));
        i = i + 1;
    }
    assert(model.take(v@.len() as int) =~= model);
    from_items(items)
}

/// Who owns which shard, as JSON: an object from a shard's number, written out, to its owner.
pub open spec fn json_assignments(v: Seq<(u32, u64)>) -> Map<Seq<char>, JsonModel>
    decreases v.len(),
{
    if v.len() == 0 {
        no_fields()
    } else {
        json_assignments(v.drop_last()).insert(decimal(v.last().0 as nat), whole(v.last().1))
    }
}

pub fn assignments_to_json(v: &Vec<(u32, u64)>) -> (r: serde_json::Value)
    ensures
        json_of(r) == JsonModel::Object(json_assignments(v@)),
{
    let mut f = Fields::new();
    let mut i: usize = 0;
    assert(v@.take(0) =~= Seq::empty());
    while i < v.len()
        invariant
            i <= v@.len(),
            f@ == json_assignments(v@.take(i as int)),
        decreases v@.len() - i,
    {
        proof {
            assert(v@.take(i as int + 1).drop_last() =~= v@.take(i as int));
            assert(v@.take(i as int + 1).last() == v@[i as int]);
        }
        let name = decimal_string(v[i].0 as u64);
        f = f.with_whole(name.as_str(), v[i].1);
        i = i + 1;
    }
    assert(v@.take(v@.len() as int) =~= v@);
    f.done()
}

#[derive(Clone, Copy, Debug)]
pub struct WriterFacts {
    pub batches: u64,
    pub requests: u64,
    pub max_batch: u64,
    /// The bits of a double.
    pub mean_batch: u64,
    pub open_now: u64,
    pub shard_opens: u64,
    pub shard_evictions: u64,
    pub threads: u64,
}

#[derive(Clone, Copy, Debug)]
pub struct ReaderFacts {
    pub queries: u64,
    pub rejected_busy: u64,
    pub timed_out: u64,
    pub threads: u64,
}

#[derive(Clone, Copy, Debug)]
pub struct ElectionFacts {
    pub elections_started: u64,
    pub became_leader: u64,
    pub stepped_down: u64,
    pub heartbeats_sent: u64,
    pub peer_unreachable: u64,
    pub votes_granted: u64,
    pub votes_refused: u64,
    pub handover_failed: u64,
    pub placement_changes: u64,
    pub last_change_ms: u64,
}

/// What a cluster member sees of its cluster.
#[derive(Debug)]
pub struct ClusterFacts {
    pub id: u64,
    pub term: u64,
    /// The name of its role.
    pub role: String,
    pub leader: Option<u64>,
    pub is_leader: bool,
    pub is_cordoned: bool,
    pub led_shards: Vec<u32>,
    pub placement_term: u64,
    /// Who owns which shard.
    pub assignments: Vec<(u32, u64)>,
    pub peers: Vec<(u64, String)>,
    pub live: Vec<u64>,
    pub cordoned: Vec<u64>,
    pub stats: ElectionFacts,
}

/// What inspecting a write-ahead log found.
#[derive(Debug)]
pub struct WalFacts {
    pub file_bytes: u64,
    /// The header, where there is one.
    pub header: Option<WalHeader>,
}

#[derive(Debug)]
pub struct WalHeader {
    pub page_size: u32,
    pub salt: Vec<u8>,
    pub frames: u64,
    pub transactions: u64,
    pub uncommitted_frames: u64,
    pub leftover_frames: u64,
}

pub open spec fn info_report(facts: NodeFacts) -> JsonModel {
    JsonModel::Object(
        no_fields().insert("shard_count"@, whole(facts.shard_count as u64)).insert(
            "epoch"@,
            maybe(facts.epoch),
        ),
    )
}

/// What this node is.
pub fn info_json(facts: &NodeFacts) -> (r: serde_json::Value)
    ensures
        json_of(r) == info_report(*facts),
{
    Fields::new().with_whole("shard_count", facts.shard_count as u64).with_maybe(
        "epoch",
        facts.epoch,
    ).done()
}

pub open spec fn reader_report(r: ReaderFacts) -> JsonModel {
    JsonModel::Object(
        no_fields().insert("queries"@, whole(r.queries)).insert(
            "rejected_busy"@,
            whole(r.rejected_busy),
        ).insert("timed_out"@, whole(r.timed_out)).insert("threads"@, whole(r.threads)),
    )
}

pub fn reader_json(r: &ReaderFacts) -> (j: serde_json::Value)
    ensures
        json_of(j) == reader_report(*r),
{
    Fields::new().with_whole("queries", r.queries).with_whole(
        "rejected_busy",
        r.rejected_busy,
    ).with_whole("timed_out", r.timed_out).with_whole("threads", r.threads).done()
}

pub open spec fn fleet_report(w: WriterFacts, r: ReaderFacts) -> JsonModel {
    JsonModel::Object(
        no_fields().insert(
            "writer"@,
            JsonModel::Object(
                no_fields().insert("batches"@, whole(w.batches)).insert(
                    "requests"@,
                    whole(w.requests),
                ).insert("open_now"@, whole(w.open_now)).insert("threads"@, whole(w.threads)),
            ),
        ).insert("reader"@, reader_report(r)),
    )
}

/// The counters of the writers and readers.
pub fn fleet_stats_json(w: &WriterFacts, r: &ReaderFacts) -> (j: serde_json::Value)
    ensures
        json_of(j) == fleet_report(*w, *r),
{
    let writer = Fields::new().with_whole("batches", w.batches).with_whole(
        "requests",
        w.requests,
    ).with_whole("open_now", w.open_now).with_whole("threads", w.threads).done();
    Fields::new().with("writer", writer).with("reader", reader_json(r)).done()
}

pub open spec fn placement_report(c: ClusterFacts) -> JsonModel {
    JsonModel::Object(
        no_fields().insert("term"@, whole(c.placement_term)).insert(
            "assignments"@,
            JsonModel::Object(json_assignments(c.assignments@)),
        ),
    )
}

pub fn placement_json(c: &ClusterFacts) -> (r: serde_json::Value)
    ensures
        json_of(r) == placement_report(*c),
{
    Fields::new().with_whole("term", c.placement_term).with(
        "assignments",
        assignments_to_json(&c.assignments),
    ).done()
}

pub open spec fn standalone_report(shard_count: u32) -> JsonModel {
    JsonModel::Object(
        no_fields().insert("clustered"@, JsonModel::Bool(false)).insert(
            "shard_count"@,
            whole(shard_count as u64),
        ),
    )
}

pub fn standalone_json(shard_count: u32) -> (r: serde_json::Value)
    ensures
        json_of(r) == standalone_report(shard_count),
{
    Fields::new().with_flag("clustered", false).with_whole(
        "shard_count",
        shard_count as u64,
    ).done()
}

/// The topology that a node reports: that it stands alone, or what it sees of its cluster.
pub open spec fn cluster_report(shard_count: u32, cluster: Option<ClusterFacts>) -> JsonModel {
    match cluster {
        None => standalone_report(shard_count),
        Some(c) => JsonModel::Object(
            no_fields().insert("clustered"@, JsonModel::Bool(true)).insert(
                "node"@,
                whole(c.id),
            ).insert("term"@, whole(c.term)).insert("role"@, JsonModel::Text(lower(c.role@))).insert(
                "leader"@,
                maybe(c.leader),
            ).insert("led_shards"@, json_shards(c.led_shards@)).insert(
                "placement"@,
                placement_report(c),
            ).insert(
                "stats"@,
                JsonModel::Object(
                    no_fields().insert(
                        "elections_started"@,
                        whole(c.stats.elections_started),
                    ).insert("became_leader"@, whole(c.stats.became_leader)).insert(
                        "stepped_down"@,
                        whole(c.stats.stepped_down),
                    ).insert("heartbeats_sent"@, whole(c.stats.heartbeats_sent)).insert(
                        "peer_unreachable"@,
                        whole(c.stats.peer_unreachable),
                    ).insert("handover_failed"@, whole(c.stats.handover_failed)),
                ),
            ),
        ),
    }
}

/// The cluster's topology.
pub fn cluster_json(shard_count: u32, cluster: &Option<ClusterFacts>) -> (r: serde_json::Value)
    ensures
        json_of(r) == cluster_report(shard_count, *cluster),
{
    match cluster {
        None => standalone_json(shard_count),
        Some(c) => {
            let role = to_lower(c.role.as_str());
            let stats = Fields::new().with_whole(
                "elections_started",
                c.stats.elections_started,
            ).with_whole("became_leader", c.stats.became_leader).with_whole(
                "stepped_down",
                c.stats.stepped_down,
            ).with_whole("heartbeats_sent", c.stats.heartbeats_sent).with_whole(
                "peer_unreachable",
                c.stats.peer_unreachable,
            ).with_whole("handover_failed", c.stats.handover_failed).done();
            Fields::new().with_flag("clustered", true).with_whole("node", c.id).with_whole(
                "term",
                c.term,
            ).with_text("role", role.as_str()).with_maybe("leader", c.leader).with(
                "led_shards",
                shards_to_json(&c.led_shards),
            ).with("placement", placement_json(c)).with("stats", stats).done()
        },
    }
}

/// What inspecting a write-ahead log found, as JSON.
pub open spec fn wal_report(wal: WalFacts) -> JsonModel {
    JsonModel::Object(
        match wal.header {
            None => no_fields().insert("wal"@, JsonModel::Bool(false)).insert(
                "file_bytes"@,
                whole(wal.file_bytes),
            ),
            Some(h) => no_fields().insert("wal"@, JsonModel::Bool(true)).insert(
                "file_bytes"@,
                whole(wal.file_bytes),
            ).insert("page_size"@, whole(h.page_size as u64)).insert(
                "salt"@,
                JsonModel::Text(hex(h.salt@)),
            ).insert("frames"@, whole(h.frames)).insert(
                "transactions"@,
                whole(h.transactions),
            ).insert("uncommitted_frames"@, whole(h.uncommitted_frames)).insert(
                "leftover_frames"@,
                whole(h.leftover_frames),
            ),
        },
    )
}

/// What inspecting the write-ahead log of a shard found.
pub fn frames_json_for(wal: &WalFacts) -> (r: serde_json::Value)
    ensures
        json_of(r) == wal_report(*wal),
{
    match &wal.header {
        None => Fields::new().with_flag("wal", false).with_whole(
            "file_bytes",
            wal.file_bytes,
        ).done(),
        Some(h) => {
            let mut salt = String::new();
            push_hex(&mut salt, h.salt.as_slice());
            assert(salt@ =~= hex(h.salt@));
            Fields::new().with_flag("wal", true).with_whole(
                "file_bytes",
                wal.file_bytes,
            ).with_whole("page_size", h.page_size as u64).with_text(
                "salt",
                salt.as_str(),
            ).with_whole("frames", h.frames).with_whole(
                "transactions",
                h.transactions,
            ).with_whole("uncommitted_frames", h.uncommitted_frames).with_whole(
                "leftover_frames",
                h.leftover_frames,
            ).done()
        },
    }
}

} // verus!
