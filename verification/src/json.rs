//! JSON documents through `serde_json`: a mathematical model of a JSON value,
//! and the calls into `serde_json` that build, read, parse and print values,
//! each with what `serde_json`'s source shows of it.
use vstd::prelude::*;

verus! {

/// `serde_json::Value`, opaque to proofs; `json_value_model` names what it holds.
#[verifier::external_type_specification]
#[verifier::external_body]
pub struct ExJsonValue(serde_json::Value);

/// `serde_json::Map`, opaque to proofs; `json_map_model` names what it holds.
#[verifier::external_type_specification]
#[verifier::external_body]
#[verifier::reject_recursive_types(K)]
#[verifier::reject_recursive_types(V)]
pub struct ExJsonMap<K, V>(serde_json::Map<K, V>);

/// `serde_json::Number`, opaque to proofs; `json_number_model` names what it holds.
#[verifier::external_type_specification]
#[verifier::external_body]
pub struct ExJsonNumber(serde_json::Number);

/// `serde_json::Error`, carried through as it is.
#[verifier::external_type_specification]
#[verifier::external_body]
pub struct ExJsonError(serde_json::Error);

/// A JSON number as `serde_json` holds it: a non-negative integer, a
/// negative integer, or a finite float (here by its IEEE-754 bits).
pub enum JsonNumber {
    PosInt(u64),
    NegInt(i64),
    Float(u64),
}

/// A JSON value. Objects are maps from keys to values, as `serde_json`'s
/// default map (ordered by key, one value per key) holds them.
pub enum JsonModel {
    Null,
    Bool(bool),
    Number(JsonNumber),
    Str(Seq<char>),
    Array(Seq<JsonModel>),
    Object(Map<Seq<char>, JsonModel>),
}

/// What a `serde_json::Value` holds.
pub uninterp spec fn json_value_model(v: serde_json::Value) -> JsonModel;

/// What a `serde_json::Map` of string keys holds.
pub uninterp spec fn json_map_model(m: serde_json::Map<String, serde_json::Value>) -> Map<
    Seq<char>,
    JsonModel,
>;

/// What a `serde_json::Number` holds.
pub uninterp spec fn json_number_model(n: serde_json::Number) -> JsonNumber;

/// The text that `serde_json::to_string_pretty` prints for a value.
pub uninterp spec fn json_pretty_text(v: JsonModel) -> Seq<char>;

/// The value that `serde_json::from_str` reads from a text, or `None` where
/// it reports an error.
pub uninterp spec fn json_parse_text(text: Seq<char>) -> Option<JsonModel>;

/// The compact text that `serde_json::Value`'s `Display` prints.
pub uninterp spec fn json_compact_text(v: JsonModel) -> Seq<char>;

/// The bits of the float that `serde_json::Number::as_f64` gives.
pub uninterp spec fn float_bits_of_number(n: JsonNumber) -> u64;

/// The object with no keys.
pub open spec fn empty_object() -> Map<Seq<char>, JsonModel> {
    Map::empty()
}

/// The models of a sequence of values.
pub open spec fn values_model(v: Seq<serde_json::Value>) -> Seq<JsonModel> {
    v.map_values(|x: serde_json::Value| json_value_model(x))
}

/// Lexicographic order of texts by code point (the order of `String`,
/// whose bytes are UTF-8).
pub open spec fn text_lt(a: Seq<char>, b: Seq<char>) -> bool
    decreases a.len(),
{
    if a.len() == 0 {
        b.len() > 0
    } else if b.len() == 0 {
        false
    } else if a[0] != b[0] {
        (a[0] as int) < (b[0] as int)
    } else {
        text_lt(a.drop_first(), b.drop_first())
    }
}

/// Texts in strictly increasing order.
pub open spec fn texts_in_order(s: Seq<Seq<char>>) -> bool {
    forall|i: int, j: int| 0 <= i < j < s.len() ==> text_lt(s[i], s[j])
}

/// The keys of a map in increasing order.
pub open spec fn sorted_keys(d: Set<Seq<char>>) -> Seq<Seq<char>> {
    choose|s: Seq<Seq<char>>| texts_in_order(s) && s.to_set() == d
}

proof fn lemma_text_lt_irreflexive(a: Seq<char>)
    ensures
        !text_lt(a, a),
    decreases a.len(),
{
    if a.len() > 0 {
        lemma_text_lt_irreflexive(a.drop_first());
    }
}

proof fn lemma_text_lt_transitive(a: Seq<char>, b: Seq<char>, c: Seq<char>)
    requires
        text_lt(a, b),
        text_lt(b, c),
    ensures
        text_lt(a, c),
    decreases a.len(),
{
    if a.len() > 0 && b.len() > 0 && c.len() > 0 && a[0] == b[0] && b[0] == c[0] {
        lemma_text_lt_transitive(a.drop_first(), b.drop_first(), c.drop_first());
    }
}

proof fn lemma_text_lt_total(a: Seq<char>, b: Seq<char>)
    requires
        a != b,
    ensures
        text_lt(a, b) || text_lt(b, a),
    decreases a.len(),
{
    if a.len() > 0 && b.len() > 0 && a[0] == b[0] {
        if a.drop_first() == b.drop_first() {
            assert(a =~= seq![a[0]] + a.drop_first());
            assert(b =~= seq![b[0]] + b.drop_first());
        }
        lemma_text_lt_total(a.drop_first(), b.drop_first());
    } else if a.len() > 0 && b.len() > 0 {
        assert((a[0] as int) != (b[0] as int));
    } else if a.len() == 0 && b.len() == 0 {
        assert(a =~= b);
    }
}

/// The least text of a finite non-empty set.
proof fn lemma_least_text(d: Set<Seq<char>>) -> (m: Seq<char>)
    requires
        d.finite(),
        d.len() > 0,
    ensures
        d.contains(m),
        forall|x: Seq<char>| d.contains(x) && x != m ==> text_lt(m, x),
    decreases d.len(),
{
    let x = d.choose();
    let r = d.remove(x);
    if r.len() == 0 {
        assert forall|y: Seq<char>| d.contains(y) implies y == x by {
            if y != x {
                assert(r.contains(y));
            }
        }
        x
    } else {
        let m2 = lemma_least_text(r);
        if text_lt(x, m2) {
            assert forall|y: Seq<char>| d.contains(y) && y != x implies text_lt(x, y) by {
                assert(r.contains(y));
                if y != m2 {
                    lemma_text_lt_transitive(x, m2, y);
                }
            }
            x
        } else {
            lemma_text_lt_total(x, m2);
            m2
        }
    }
}

/// Every finite set of texts has its keys in increasing order.
pub proof fn lemma_sorted_keys(d: Set<Seq<char>>)
    requires
        d.finite(),
    ensures
        texts_in_order(sorted_keys(d)),
        sorted_keys(d).to_set() == d,
{
    let s = lemma_ordered_texts_of(d);
    assert(texts_in_order(s) && s.to_set() == d);
}

proof fn lemma_ordered_texts_of(d: Set<Seq<char>>) -> (s: Seq<Seq<char>>)
    requires
        d.finite(),
    ensures
        texts_in_order(s),
        s.to_set() == d,
    decreases d.len(),
{
    if d.len() == 0 {
        assert(d =~= Set::<Seq<char>>::empty());
        assert(Seq::<Seq<char>>::empty().to_set() =~= d);
        seq![]
    } else {
        let m = lemma_least_text(d);
        let rest = lemma_ordered_texts_of(d.remove(m));
        let s = seq![m] + rest;
        assert forall|i: int, j: int| 0 <= i < j < s.len() implies text_lt(s[i], s[j]) by {
            if i == 0 {
                assert(rest.to_set().contains(rest[j - 1]));
                assert(s[j] == rest[j - 1]);
            } else {
                assert(s[i] == rest[i - 1] && s[j] == rest[j - 1]);
            }
        }
        assert forall|x: Seq<char>| s.to_set().contains(x) <==> d.contains(x) by {
            if d.contains(x) && x != m {
                assert(rest.to_set().contains(x));
                let k = choose|k: int| 0 <= k < rest.len() && rest[k] == x;
                assert(s[k + 1] == x);
            }
            if s.to_set().contains(x) {
                let k = choose|k: int| 0 <= k < s.len() && s[k] == x;
                if k > 0 {
                    assert(rest[k - 1] == x);
                    assert(rest.to_set().contains(x));
                }
            }
            if x == m {
                assert(s[0] == m);
            }
        }
        assert(s.to_set() =~= d);
        s
    }
}

/// The texts of a sequence of strings.
pub open spec fn string_views(v: Seq<String>) -> Seq<Seq<char>> {
    v.map_values(|s: String| s@)
}

/// `as_i64` of a number: the integer when it fits in an `i64`.
pub open spec fn number_as_i64(n: JsonNumber) -> Option<i64> {
    match n {
        JsonNumber::PosInt(u) => if u <= i64::MAX {
            Some(u as i64)
        } else {
            None
        },
        JsonNumber::NegInt(i) => Some(i),
        JsonNumber::Float(_) => None,
    }
}

/// One layer of a value, with references to its parts.
pub enum JsonNode<'a> {
    Null,
    Bool(bool),
    Number(&'a serde_json::Number),
    Str(&'a String),
    Array(&'a Vec<serde_json::Value>),
    Object(&'a serde_json::Map<String, serde_json::Value>),
}

/// Tells the variants of a `serde_json::Value` apart.
#[verifier::external_body]
pub(crate) fn json_node(v: &serde_json::Value) -> (r: JsonNode<'_>)
    ensures
        match r {
            JsonNode::Null => json_value_model(*v) == JsonModel::Null,
            JsonNode::Bool(b) => json_value_model(*v) == JsonModel::Bool(b),
            JsonNode::Number(n) => json_value_model(*v) == JsonModel::Number(json_number_model(*n)),
            JsonNode::Str(s) => json_value_model(*v) == JsonModel::Str(s@),
            JsonNode::Array(a) => json_value_model(*v) == JsonModel::Array(values_model(a@)),
            JsonNode::Object(m) => json_value_model(*v) == JsonModel::Object(json_map_model(*m))
                && json_map_model(*m).dom().finite(),
        },
{
    match v {
        serde_json::Value::Null => JsonNode::Null,
        serde_json::Value::Bool(b) => JsonNode::Bool(*b),
        serde_json::Value::Number(n) => JsonNode::Number(n),
        serde_json::Value::String(s) => JsonNode::Str(s),
        serde_json::Value::Array(a) => JsonNode::Array(a),
        serde_json::Value::Object(m) => JsonNode::Object(m),
    }
}

/// `serde_json::Value::Null`.
#[verifier::external_body]
pub(crate) fn json_null() -> (r: serde_json::Value)
    ensures
        json_value_model(r) == JsonModel::Null,
{
    serde_json::Value::Null
}

/// `serde_json::Value::String`.
#[verifier::external_body]
pub(crate) fn json_string(s: String) -> (r: serde_json::Value)
    ensures
        json_value_model(r) == JsonModel::Str(s@),
{
    serde_json::Value::String(s)
}

/// `serde_json::Value::Array`.
#[verifier::external_body]
pub(crate) fn json_array(items: Vec<serde_json::Value>) -> (r: serde_json::Value)
    ensures
        json_value_model(r) == JsonModel::Array(values_model(items@)),
{
    serde_json::Value::Array(items)
}

/// `serde_json::Value::Object`.
#[verifier::external_body]
pub(crate) fn json_object(m: serde_json::Map<String, serde_json::Value>) -> (r: serde_json::Value)
    ensures
        json_value_model(r) == JsonModel::Object(json_map_model(m)),
{
    serde_json::Value::Object(m)
}

/// `serde_json::Value::from` an `i64`: a negative number is held as
/// `NegInt`, any other as `PosInt`.
#[verifier::external_body]
pub(crate) fn json_from_i64(i: i64) -> (r: serde_json::Value)
    ensures
        json_value_model(r) == JsonModel::Number(
            if i < 0 {
                JsonNumber::NegInt(i)
            } else {
                JsonNumber::PosInt(i as u64)
            },
        ),
{
    serde_json::Value::from(i)
}

/// `Clone` of a `serde_json::Value`: an equal value.
#[verifier::external_body]
pub(crate) fn json_clone(v: &serde_json::Value) -> (r: serde_json::Value)
    ensures
        json_value_model(r) == json_value_model(*v),
{
    v.clone()
}

/// `serde_json::Map::new`: the empty map.
#[verifier::external_body]
pub(crate) fn json_map_new() -> (r: serde_json::Map<String, serde_json::Value>)
    ensures
        json_map_model(r) == empty_object(),
{
    serde_json::Map::new()
}

/// `serde_json::Map::insert`: the key now maps to the value.
#[verifier::external_body]
pub(crate) fn json_map_insert(
    m: &mut serde_json::Map<String, serde_json::Value>,
    k: String,
    v: serde_json::Value,
)
    ensures
        json_map_model(*final(m)) == json_map_model(*old(m)).insert(k@, json_value_model(v)),
{
    m.insert(k, v);
}

/// `serde_json::Map::is_empty`.
#[verifier::external_body]
pub(crate) fn json_map_is_empty(m: &serde_json::Map<String, serde_json::Value>) -> (r: bool)
    ensures
        r == (json_map_model(*m) == empty_object()),
{
    m.is_empty()
}

/// `serde_json::Map::get`: the value of a key, if the key is present.
#[verifier::external_body]
pub(crate) fn json_map_get<'a>(m: &'a serde_json::Map<String, serde_json::Value>, k: &str) -> (r: Option<
    &'a serde_json::Value,
>)
    ensures
        r is Some <==> json_map_model(*m).dom().contains(k@),
        r matches Some(v) ==> json_value_model(*v) == json_map_model(*m)[k@],
{
    m.get(k)
}

/// `serde_json::Map::keys`: every key once, in increasing order.
#[verifier::external_body]
pub(crate) fn json_map_keys(m: &serde_json::Map<String, serde_json::Value>) -> (r: Vec<String>)
    ensures
        texts_in_order(string_views(r@)),
        string_views(r@).to_set() == json_map_model(*m).dom(),
        string_views(r@) == sorted_keys(json_map_model(*m).dom()),
{
    m.keys().cloned().collect()
}

/// `serde_json::Number::as_i64`.
#[verifier::external_body]
pub(crate) fn json_number_as_i64(n: &serde_json::Number) -> (r: Option<i64>)
    ensures
        r == number_as_i64(json_number_model(*n)),
{
    n.as_i64()
}

/// `serde_json::Number::as_f64`, as the float's bits. It gives a float for
/// every number; for a float it gives that float.
#[verifier::external_body]
pub(crate) fn json_number_float_bits(n: &serde_json::Number) -> (r: Option<u64>)
    ensures
        r == Some(float_bits_of_number(json_number_model(*n))),
        json_number_model(*n) matches JsonNumber::Float(b) ==> r == Some(b),
{
    n.as_f64().map(|x| x.to_bits())
}

/// `serde_json::from_str` into a `serde_json::Value`.
#[verifier::external_body]
pub(crate) fn json_from_str(s: &str) -> (r: Result<serde_json::Value, serde_json::Error>)
    ensures
        r is Ok <==> json_parse_text(s@) is Some,
        r matches Ok(v) ==> json_parse_text(s@) == Some(json_value_model(v)),
{
    serde_json::from_str(s)
}

/// `serde_json::to_string_pretty` of a `serde_json::Value`, which cannot
/// fail (a value's keys are strings, and the text goes to memory).
#[verifier::external_body]
pub(crate) fn json_to_string_pretty(v: &serde_json::Value) -> (r: Result<String, serde_json::Error>)
    ensures
        r is Ok,
        r matches Ok(s) ==> s@ == json_pretty_text(json_value_model(*v)),
{
    serde_json::to_string_pretty(v)
}

/// `serde_json::Value::to_string`: the compact JSON text of a value.
#[verifier::external_body]
pub(crate) fn json_to_compact_string(v: &serde_json::Value) -> (r: String)
    ensures
        r@ == json_compact_text(json_value_model(*v)),
{
    v.to_string()
}

} // verus!
