//! Loading the ink runtime JSON format into runtime containers.
use vstd::prelude::*;
use vstd::string::*;

use crate::json::{
    JsonModel, JsonNode, float_bits_of_number, json_compact_text, json_from_str, json_map_get,
    json_map_keys, json_map_model, json_node, json_number_as_i64, json_number_float_bits,
    json_number_model, json_parse_text, json_to_compact_string, json_value_model, lemma_sorted_keys,
    number_as_i64, sorted_keys, string_views, text_lt, texts_in_order, values_model,
};
use crate::model::{
    Container, InkDoc, RuntimeNode, SpecContainer, SpecDoc, SpecNode, named_view, names_in_order,
    node_view, nodes_view, opt_string_view,
};

verus! {

/// Why a runtime document could not be loaded.
#[derive(Debug)]
pub enum InkJsonError {
    Io(std::io::Error),
    Json(serde_json::Error),
    InvalidFormat(String),
}

/// `as_i64` of a value: the integer of a number that fits in an `i64`.
pub open spec fn value_i64(v: JsonModel) -> Option<i64> {
    match v {
        JsonModel::Number(n) => number_as_i64(n),
        _ => None,
    }
}

/// `as_str` of a value: the text of a string.
pub open spec fn value_str(v: JsonModel) -> Option<Seq<char>> {
    match v {
        JsonModel::Str(s) => Some(s),
        _ => None,
    }
}

/// The flags that a `#f` entry gives: its integer, cut to 32 bits.
pub open spec fn flags_of(v: JsonModel) -> Option<i32> {
    match value_i64(v) {
        Some(f) => Some(f as i32),
        None => None,
    }
}

/// What one JSON value means as a runtime node, or the message of the
/// format error in it.
///
/// `null`, booleans and numbers stand for themselves (an integer that fits
/// in an `i64` as an integer, any other number as a float); the string
/// `"\n"` is a newline, a string `"^text"` is the text `text`, any other
/// string a command; an array is a container; an object with a string
/// under `"^->"` is a divert target, any other object is kept as its JSON
/// text.
pub open spec fn spec_parse_node(v: JsonModel) -> Result<SpecNode, Seq<char>>
    decreases v, 2int,
{
    match v {
        JsonModel::Null => Ok(SpecNode::Null),
        JsonModel::Bool(b) => Ok(SpecNode::Bool(b)),
        JsonModel::Number(n) => match number_as_i64(n) {
            Some(i) => Ok(SpecNode::Int(i)),
            None => Ok(SpecNode::Float(float_bits_of_number(n))),
        },
        JsonModel::Str(s) => if s == "\n"@ {
            Ok(SpecNode::Newline)
        } else if s.len() > 0 && s[0] == '^' {
            Ok(SpecNode::Str(s.drop_first()))
        } else {
            Ok(SpecNode::Command(s))
        },
        JsonModel::Array(_) => match spec_parse_container(v) {
            Ok(c) => Ok(SpecNode::Container(c)),
            Err(e) => Err(e),
        },
        JsonModel::Object(m) => if m.dom().contains("^->"@) && m["^->"@] is Str {
            Ok(SpecNode::DivertTarget(m["^->"@]->Str_0))
        } else {
            Ok(SpecNode::UnknownJson(json_compact_text(v)))
        },
    }
}

/// The nodes of a sequence of values; the first format error wins.
pub open spec fn spec_parse_nodes(items: Seq<JsonModel>) -> Result<Seq<SpecNode>, Seq<char>>
    decreases items, 0int,
{
    if items.len() == 0 {
        Ok(seq![])
    } else {
        match spec_parse_nodes(items.subrange(0, items.len() - 1)) {
            Err(e) => Err(e),
            Ok(ns) => match spec_parse_node(items[items.len() - 1]) {
                Err(e) => Err(e),
                Ok(n) => Ok(ns.push(n)),
            },
        }
    }
}

/// The named content, name and flags that a container's tail object gives,
/// reading its keys in the order `ks`: `#f` gives the flags, `#n` the name,
/// any other key a named node; the first format error wins.
pub open spec fn spec_tail_entries(m: Map<Seq<char>, JsonModel>, ks: Seq<Seq<char>>) -> Result<
    (Seq<(Seq<char>, SpecNode)>, Option<Seq<char>>, Option<i32>),
    Seq<char>,
>
    decreases m, ks.len() as int,
{
    if ks.len() == 0 {
        Ok((seq![], None, None))
    } else {
        match spec_tail_entries(m, ks.subrange(0, ks.len() - 1)) {
            Err(e) => Err(e),
            Ok(acc) => {
                let k = ks[ks.len() - 1];
                if !m.dom().contains(k) || !m.dom().finite() {
                    // keys are read from the (finite) map itself, so this is never taken
                    Err(seq![])
                } else if k == "#f"@ {
                    Ok((acc.0, acc.1, flags_of(m[k])))
                } else if k == "#n"@ {
                    Ok((acc.0, value_str(m[k]), acc.2))
                } else {
                    match spec_parse_node(m[k]) {
                        Err(e) => Err(e),
                        Ok(n) => Ok((acc.0.push((k, n)), acc.1, acc.2)),
                    }
                }
            },
        }
    }
}

/// What a JSON value means as a runtime container: a non-empty array whose
/// last element is `null` or an object of named content and metadata, and
/// whose other elements are the content.
pub open spec fn spec_parse_container(v: JsonModel) -> Result<SpecContainer, Seq<char>>
    decreases v, 1int,
{
    match v {
        JsonModel::Array(items) => if items.len() == 0 {
            Err("container array must not be empty"@)
        } else {
            match spec_parse_nodes(items.subrange(0, items.len() - 1)) {
                Err(e) => Err(e),
                Ok(content) => match items[items.len() - 1] {
                    JsonModel::Null => Ok(
                        SpecContainer { content, named: seq![], name: None, flags: None },
                    ),
                    JsonModel::Object(m) => match spec_tail_entries(m, sorted_keys(m.dom())) {
                        Err(e) => Err(e),
                        Ok(t) => Ok(SpecContainer { content, named: t.0, name: t.1, flags: t.2 }),
                    },
                    _ => Err("container tail must be object or null"@),
                },
            }
        },
        _ => Err("container must be array"@),
    }
}

/// What a whole JSON document means: an object with an integer
/// `inkVersion` (cut to 32 bits) and a root container.
pub open spec fn spec_top_level(v: JsonModel) -> Result<SpecDoc, Seq<char>> {
    match v {
        JsonModel::Object(m) => {
            let version = if m.dom().contains("inkVersion"@) {
                value_i64(m["inkVersion"@])
            } else {
                None
            };
            match version {
                None => Err("missing inkVersion"@),
                Some(i) => if !m.dom().contains("root"@) {
                    Err("missing root"@)
                } else {
                    match spec_parse_container(m["root"@]) {
                        Ok(c) => Ok(SpecDoc { ink_version: i as i32, root: c }),
                        Err(e) => Err(e),
                    }
                },
            }
        },
        _ => Err("top level must be object"@),
    }
}

/// The outcome of loading a document from `text`.
pub open spec fn load_result_matches(text: Seq<char>, r: Result<InkDoc, InkJsonError>) -> bool {
    match json_parse_text(text) {
        None => r matches Err(InkJsonError::Json(_)),
        Some(v) => match spec_top_level(v) {
            Ok(d) => r matches Ok(doc) && doc@ == d,
            Err(msg) => r matches Err(InkJsonError::InvalidFormat(s)) && s@ == msg,
        },
    }
}

/// A parse result agrees with a spec result.
pub open spec fn node_result_matches(
    r: Result<RuntimeNode, InkJsonError>,
    s: Result<SpecNode, Seq<char>>,
) -> bool {
    match r {
        Ok(n) => s == Ok::<SpecNode, Seq<char>>(n@),
        Err(e) => e matches InkJsonError::InvalidFormat(msg) && s == Err::<SpecNode, Seq<char>>(
            msg@,
        ),
    }
}

/// A parse result agrees with a spec result.
pub open spec fn container_result_matches(
    r: Result<Container, InkJsonError>,
    s: Result<SpecContainer, Seq<char>>,
) -> bool {
    match r {
        Ok(c) => s == Ok::<SpecContainer, Seq<char>>(c@),
        Err(e) => e matches InkJsonError::InvalidFormat(msg) && s == Err::<SpecContainer, Seq<char>>(
            msg@,
        ),
    }
}

proof fn lemma_nodes_err_extends(items: Seq<JsonModel>, i: int, e: Seq<char>)
    requires
        0 <= i <= items.len(),
        spec_parse_nodes(items.subrange(0, i)) == Err::<Seq<SpecNode>, Seq<char>>(e),
    ensures
        spec_parse_nodes(items) == Err::<Seq<SpecNode>, Seq<char>>(e),
    decreases items.len() - i,
{
    if i < items.len() {
        let next = items.subrange(0, i + 1);
        assert(next.subrange(0, next.len() - 1) =~= items.subrange(0, i));
        lemma_nodes_err_extends(items, i + 1, e);
    } else {
        assert(items.subrange(0, i) =~= items);
    }
}

proof fn lemma_tail_err_extends(
    m: Map<Seq<char>, JsonModel>,
    ks: Seq<Seq<char>>,
    i: int,
    e: Seq<char>,
)
    requires
        0 <= i <= ks.len(),
        spec_tail_entries(m, ks.subrange(0, i)) is Err,
        spec_tail_entries(m, ks.subrange(0, i))->Err_0 == e,
    ensures
        spec_tail_entries(m, ks) is Err,
        spec_tail_entries(m, ks)->Err_0 == e,
    decreases ks.len() - i,
{
    if i < ks.len() {
        let next = ks.subrange(0, i + 1);
        assert(next.subrange(0, next.len() - 1) =~= ks.subrange(0, i));
        lemma_tail_err_extends(m, ks, i + 1, e);
    } else {
        assert(ks.subrange(0, i) =~= ks);
    }
}

proof fn lemma_tail_names_ordered(m: Map<Seq<char>, JsonModel>, ks: Seq<Seq<char>>)
    requires
        texts_in_order(ks),
    ensures
        spec_tail_entries(m, ks) matches Ok(t) ==> names_in_order(t.0) && forall|i: int|
            0 <= i < t.0.len() ==> exists|j: int| 0 <= j < ks.len() && #[trigger] t.0[i].0 == ks[j],
    decreases ks.len(),
{
    if ks.len() > 0 {
        let f = ks.subrange(0, ks.len() - 1);
        let k = ks[ks.len() - 1];
        assert(texts_in_order(f)) by {
            assert forall|i: int, j: int| 0 <= i < j < f.len() implies text_lt(f[i], f[j]) by {
                assert(f[i] == ks[i] && f[j] == ks[j]);
            }
        }
        lemma_tail_names_ordered(m, f);
        if let Ok(t) = spec_tail_entries(m, ks) {
            let p = spec_tail_entries(m, f)->Ok_0;
            assert forall|i: int| 0 <= i < p.0.len() implies text_lt(#[trigger] p.0[i].0, k) by {
                let j = choose|j: int| 0 <= j < f.len() && p.0[i].0 == f[j];
                assert(f[j] == ks[j]);
            }
            assert forall|i: int| 0 <= i < t.0.len() implies exists|j: int|
                0 <= j < ks.len() && #[trigger] t.0[i].0 == ks[j] by {
                if i < p.0.len() {
                    assert(t.0[i] == p.0[i]);
                    let j = choose|j: int| 0 <= j < f.len() && p.0[i].0 == f[j];
                    assert(f[j] == ks[j]);
                } else {
                    assert(t.0[i].0 == ks[ks.len() - 1]);
                }
            }
            assert forall|i: int, j: int| 0 <= i < j < t.0.len() implies text_lt(
                t.0[i].0,
                t.0[j].0,
            ) by {
                if j >= p.0.len() {
                    assert(t.0[j].0 == k);
                    assert(t.0[i] == p.0[i]);
                } else {
                    assert(t.0[i] == p.0[i] && t.0[j] == p.0[j]);
                }
            }
        }
    }
}

proof fn lemma_tail_infinite_err(m: Map<Seq<char>, JsonModel>, ks: Seq<Seq<char>>)
    requires
        !m.dom().finite(),
        ks.len() > 0,
    ensures
        spec_tail_entries(m, ks) is Err,
    decreases ks.len(),
{
    if ks.len() > 1 {
        lemma_tail_infinite_err(m, ks.subrange(0, ks.len() - 1));
    }
}

/// A container that loads holds its named content each name once, in
/// increasing order.
pub proof fn lemma_loaded_names_in_order(v: JsonModel)
    ensures
        spec_parse_container(v) matches Ok(c) ==> names_in_order(c.named),
{
    if let JsonModel::Array(items) = v {
        if items.len() > 0 {
            if let JsonModel::Object(m) = items[items.len() - 1] {
                let ks = sorted_keys(m.dom());
                if m.dom().finite() {
                    lemma_sorted_keys(m.dom());
                    lemma_tail_names_ordered(m, ks);
                } else if ks.len() > 0 {
                    lemma_tail_infinite_err(m, ks);
                } else {
                    assert(spec_tail_entries(m, ks) == Ok::<
                        (Seq<(Seq<char>, SpecNode)>, Option<Seq<char>>, Option<i32>),
                        Seq<char>,
                    >((seq![], None, None)));
                }
            }
        }
    }
}

/// `as_i64` of a value.
fn value_as_i64(v: &serde_json::Value) -> (r: Option<i64>)
    ensures
        r == value_i64(json_value_model(*v)),
{
    match json_node(v) {
        JsonNode::Number(n) => json_number_as_i64(n),
        _ => None,
    }
}

/// `as_str` of a value, as a new string.
fn value_as_string(v: &serde_json::Value) -> (r: Option<String>)
    ensures
        opt_string_view(r) == value_str(json_value_model(*v)),
{
    match json_node(v) {
        JsonNode::Str(s) => Some(s.clone()),
        _ => None,
    }
}

/// A string's text after its first character.
fn drop_first_char(s: &String) -> (r: String)
    requires
        s@.len() > 0,
    ensures
        r@ == s@.drop_first(),
{
    let n = s.as_str().unicode_len();
    String::from_str(s.as_str().substring_char(1, n))
}

/// Reads one runtime node.
pub fn parse_node(v: &serde_json::Value) -> (r: Result<RuntimeNode, InkJsonError>)
    ensures
        node_result_matches(r, spec_parse_node(json_value_model(*v))),
    decreases json_value_model(*v), 2int,
{
    match json_node(v) {
        JsonNode::Null => Ok(RuntimeNode::Null),
        JsonNode::Bool(b) => Ok(RuntimeNode::Bool(b)),
        JsonNode::Number(n) => {
            if let Some(i) = json_number_as_i64(n) {
                Ok(RuntimeNode::Int(i))
            } else {
                match json_number_float_bits(n) {
                    Some(bits) => Ok(RuntimeNode::Float(bits)),
                    None => {
                        // `as_f64` gives a float for every number
                        proof {
                            assert(false);
                        }
                        Err(InkJsonError::InvalidFormat(String::from_str("unsupported number format")))
                    },
                }
            }
        },
        JsonNode::Str(s) => {
            if *s == String::from_str("\n") {
                return Ok(RuntimeNode::Newline);
            }
            let n = s.as_str().unicode_len();
            if n > 0 && s.as_str().get_char(0) == '^' {
                return Ok(RuntimeNode::Str(drop_first_char(s)));
            }
            Ok(RuntimeNode::Command(s.clone()))
        },
        JsonNode::Array(_) => {
            match parse_container(v) {
                Ok(c) => Ok(RuntimeNode::Container(c)),
                Err(e) => Err(e),
            }
        },
        JsonNode::Object(map) => {
            if let Some(t) = json_map_get(map, "^->") {
                if let Some(target) = value_as_string(t) {
                    return Ok(RuntimeNode::DivertTarget(target));
                }
            }
            Ok(RuntimeNode::UnknownJson(json_to_compact_string(v)))
        },
    }
}

/// Reads a runtime container: content elements, then a tail that is `null`
/// or an object of named content (`#f` flags, `#n` name).
pub fn parse_container(v: &serde_json::Value) -> (r: Result<Container, InkJsonError>)
    ensures
        container_result_matches(r, spec_parse_container(json_value_model(*v))),
        r matches Ok(c) ==> names_in_order(c@.named),
    decreases json_value_model(*v), 1int,
{
    proof {
        lemma_loaded_names_in_order(json_value_model(*v));
    }
    let arr = match json_node(v) {
        JsonNode::Array(a) => a,
        _ => return Err(InkJsonError::InvalidFormat(String::from_str("container must be array"))),
    };
    let ghost items = values_model(arr@);
    let len = arr.len();
    if len == 0 {
        return Err(InkJsonError::InvalidFormat(String::from_str("container array must not be empty")));
    }
    let mut content: Vec<RuntimeNode> = Vec::new();
    let mut i: usize = 0;
    assert(items.subrange(0, 0) =~= Seq::<JsonModel>::empty());
    assert(nodes_view(content@) =~= Seq::<SpecNode>::empty());
    while i < len - 1
        invariant
            i <= len - 1,
            len == arr@.len(),
            items == values_model(arr@),
            json_value_model(*v) == JsonModel::Array(items),
            spec_parse_nodes(items.subrange(0, i as int)) == Ok::<Seq<SpecNode>, Seq<char>>(
                nodes_view(content@),
            ),
        decreases len - i,
    {
        proof {
            assert(json_value_model(*v)->Array_0 == items);
            assert(decreases_to!(json_value_model(*v) => json_value_model(*v)->Array_0));
            assert(items[i as int] == json_value_model(arr@[i as int]));
            assert(decreases_to!(items => items[i as int]));
        }
        let node = parse_node(&arr[i]);
        let ghost prefix = items.subrange(0, i + 1);
        assert(prefix.subrange(0, prefix.len() - 1) =~= items.subrange(0, i as int));
        assert(prefix[prefix.len() - 1] == items[i as int]);
        match node {
            Ok(n) => {
                let ghost before = content@;
                content.push(n);
                assert(content@.subrange(0, content@.len() - 1) =~= before);
                i = i + 1;
            },
            Err(e) => {
                proof {
                    assert(items.subrange(0, len - 1).subrange(0, i + 1) =~= prefix);
                    lemma_nodes_err_extends(items.subrange(0, len - 1), i + 1, e->InvalidFormat_0@);
                }
                return Err(e);
            },
        }
    }
    let tail = &arr[len - 1];
    assert(items[len - 1] == json_value_model(*tail));
    let tail_map = match json_node(tail) {
        JsonNode::Null => {
            let c = Container { content, named: Vec::new(), name: None, flags: None };
            assert(named_view(c.named@) =~= seq![]);
            return Ok(c);
        },
        JsonNode::Object(m) => m,
        _ => {
            return Err(InkJsonError::InvalidFormat(String::from_str("container tail must be object or null")));
        },
    };
    let ghost m = json_map_model(*tail_map);
    let keys = json_map_keys(tail_map);
    let ghost ks = string_views(keys@);
    let mut named: Vec<(String, RuntimeNode)> = Vec::new();
    let mut name: Option<String> = None;
    let mut flags: Option<i32> = None;
    let mut j: usize = 0;
    assert(ks.subrange(0, 0) =~= Seq::<Seq<char>>::empty());
    assert(named_view(named@) =~= seq![]);
    while j < keys.len()
        invariant
            j <= keys@.len(),
            ks == string_views(keys@),
            ks == sorted_keys(m.dom()),
            ks.to_set() == m.dom(),
            m.dom().finite(),
            m == json_map_model(*tail_map),
            json_value_model(*v) == JsonModel::Array(items),
            items.len() == len,
            len >= 1,
            spec_parse_nodes(items.subrange(0, len - 1)) == Ok::<Seq<SpecNode>, Seq<char>>(
                nodes_view(content@),
            ),
            items[len - 1] == JsonModel::Object(m),
            spec_tail_entries(m, ks.subrange(0, j as int)) == Ok::<
                (Seq<(Seq<char>, SpecNode)>, Option<Seq<char>>, Option<i32>),
                Seq<char>,
            >((named_view(named@), opt_string_view(name), flags)),
        decreases keys@.len() - j,
    {
        let ghost k = ks[j as int];
        assert(ks.to_set().contains(k));
        let ghost prefix = ks.subrange(0, j + 1);
        assert(prefix.subrange(0, prefix.len() - 1) =~= ks.subrange(0, j as int));
        assert(prefix[prefix.len() - 1] == k);
        let child = match json_map_get(tail_map, keys[j].as_str()) {
            Some(c) => c,
            None => {
                assert(false);
                return Err(InkJsonError::InvalidFormat(String::new()));
            },
        };
        if keys[j] == String::from_str("#f") {
            flags = match value_as_i64(child) {
                Some(f) => Some(#[verifier::truncate] (f as i32)),
                None => None,
            };
        } else if keys[j] == String::from_str("#n") {
            name = value_as_string(child);
        } else {
            proof {
                broadcast use vstd::map::axiom_map_index_decreases_finite;

                assert(json_value_model(*v)->Array_0 == items);
                assert(decreases_to!(json_value_model(*v) => json_value_model(*v)->Array_0));
                assert(decreases_to!(items => items[len - 1]));
                assert(decreases_to!(items[len - 1] => items[len - 1]->Object_0));
                assert(decreases_to!(m => m[k]));
            }
            match parse_node(child) {
                Ok(n) => {
                    let ghost before = named@;
                    named.push((keys[j].clone(), n));
                    assert(named@.subrange(0, named@.len() - 1) =~= before);
                },
                Err(e) => {
                    proof {
                        lemma_tail_err_extends(m, ks, j + 1, e->InvalidFormat_0@);
                    }
                    return Err(e);
                },
            }
        }
        j = j + 1;
    }
    assert(ks.subrange(0, j as int) =~= ks);
    Ok(Container { content, named, name, flags })
}

/// Reads the top level of a document: its version and its root container.
pub fn parse_top_level(v: serde_json::Value) -> (r: Result<InkDoc, InkJsonError>)
    ensures
        match r {
            Ok(doc) => spec_top_level(json_value_model(v)) == Ok::<SpecDoc, Seq<char>>(doc@),
            Err(e) => e matches InkJsonError::InvalidFormat(msg) && spec_top_level(
                json_value_model(v),
            ) == Err::<SpecDoc, Seq<char>>(msg@),
        },
        r matches Ok(doc) ==> names_in_order(doc@.root.named),
{
    let obj = match json_node(&v) {
        JsonNode::Object(m) => m,
        _ => return Err(InkJsonError::InvalidFormat(String::from_str("top level must be object"))),
    };
    let version = match json_map_get(obj, "inkVersion") {
        Some(x) => value_as_i64(x),
        None => None,
    };
    let ink_version = match version {
        Some(i) => #[verifier::truncate] (i as i32),
        None => return Err(InkJsonError::InvalidFormat(String::from_str("missing inkVersion"))),
    };
    let root_v = match json_map_get(obj, "root") {
        Some(x) => x,
        None => return Err(InkJsonError::InvalidFormat(String::from_str("missing root"))),
    };
    let root = parse_container(root_v)?;
    Ok(InkDoc { ink_version, root })
}

/// Loads a runtime document from JSON text.
pub fn load_ink_doc_from_str(raw: &str) -> (r: Result<InkDoc, InkJsonError>)
    ensures
        load_result_matches(raw@, r),
        r matches Ok(doc) ==> names_in_order(doc@.root.named),
{
    let v = match json_from_str(raw) {
        Ok(v) => v,
        Err(e) => return Err(InkJsonError::Json(e)),
    };
    parse_top_level(v)
}

} // verus!
