//! Generation of ink runtime JSON from a story's syntax tree.
use vstd::prelude::*;
use vstd::string::*;

use crate::ast::{AstKnot, AstStmt, AstStory, SpecKnot, SpecStmt, SpecStory, knot_views, stmt_views};
use crate::json::{
    JsonModel, JsonNode, JsonNumber, empty_object, json_array, json_from_i64, json_map_insert,
    json_map_is_empty, json_map_model, json_map_new, json_node, json_null, json_object,
    json_string, json_value_model, values_model,
};
use crate::text::{ascii_upper, to_ascii_uppercase};

verus! {

/// A JSON string.
pub open spec fn jstr(s: Seq<char>) -> JsonModel {
    JsonModel::Str(s)
}

/// The object `{ "->": target }`.
pub open spec fn divert_object(target: Seq<char>) -> JsonModel {
    JsonModel::Object(empty_object().insert("->"@, jstr(target)))
}

/// The runtime content of one statement: text becomes `"^text"` and a
/// newline; a divert to `END` or `DONE` (any case) becomes `"end"` or
/// `"done"`, any other divert `{ "->": target }`; unsupported statements
/// give nothing.
pub open spec fn stmt_json(st: SpecStmt) -> Seq<JsonModel> {
    match st {
        SpecStmt::Text { text, .. } => seq![jstr("^"@ + text), jstr("\n"@)],
        SpecStmt::Divert { target, .. } => if ascii_upper(target) == "END"@ {
            seq![jstr("end"@)]
        } else if ascii_upper(target) == "DONE"@ {
            seq![jstr("done"@)]
        } else {
            seq![divert_object(target)]
        },
        SpecStmt::Unsupported { .. } => seq![],
    }
}

/// The runtime content of a sequence of statements.
pub open spec fn stmts_json(s: Seq<SpecStmt>) -> Seq<JsonModel>
    decreases s.len(),
{
    if s.len() == 0 {
        seq![]
    } else {
        stmts_json(s.drop_last()) + stmt_json(s.last())
    }
}

/// Content ends in `"done"` or `"end"`; otherwise `"done"` is added.
pub open spec fn with_terminator(c: Seq<JsonModel>) -> Seq<JsonModel> {
    if c.len() > 0 && (c.last() == jstr("done"@) || c.last() == jstr("end"@)) {
        c
    } else {
        c.push(jstr("done"@))
    }
}

/// A runtime container: its content, then its named content (or `null`
/// when there is none).
pub open spec fn container_json(content: Seq<JsonModel>, named: Map<Seq<char>, JsonModel>) -> JsonModel {
    JsonModel::Array(
        content.push(
            if named == empty_object() {
                JsonModel::Null
            } else {
                JsonModel::Object(named)
            },
        ),
    )
}

/// The container of one knot.
pub open spec fn knot_json(k: SpecKnot) -> JsonModel {
    container_json(with_terminator(stmts_json(k.body)), empty_object())
}

/// The knots by name; of two knots with one name, the later one stays.
pub open spec fn knots_json(ks: Seq<SpecKnot>) -> Map<Seq<char>, JsonModel>
    decreases ks.len(),
{
    if ks.len() == 0 {
        empty_object()
    } else {
        knots_json(ks.drop_last()).insert(ks.last().name, knot_json(ks.last()))
    }
}

/// The runtime JSON document of a story: version 21 and the root container.
pub open spec fn story_json(st: SpecStory) -> JsonModel {
    JsonModel::Object(
        empty_object().insert("inkVersion"@, JsonModel::Number(JsonNumber::PosInt(21))).insert(
            "root"@,
            container_json(with_terminator(stmts_json(st.root)), knots_json(st.knots)),
        ),
    )
}

/// The runtime content of a sequence of statements.
pub fn codegen_stmts(stmts: &Vec<AstStmt>) -> (out: Vec<serde_json::Value>)
    ensures
        values_model(out@) == stmts_json(stmt_views(stmts@)),
{
    let mut out: Vec<serde_json::Value> = Vec::new();
    let mut i: usize = 0;
    while i < stmts.len()
        invariant
            i <= stmts@.len(),
            values_model(out@) == stmts_json(stmt_views(stmts@.take(i as int))),
        decreases stmts@.len() - i,
    {
        let ghost before = out@;
        match &stmts[i] {
            AstStmt::Text { text, .. } => {
                let mut s = String::from_str("^");
                s.append(text.as_str());
                out.push(json_string(s));
                out.push(json_string(String::from_str("\n")));
            },
            AstStmt::Divert { target, .. } => {
                let upper = to_ascii_uppercase(target.as_str());
                if upper == String::from_str("END") {
                    out.push(json_string(String::from_str("end")));
                } else if upper == String::from_str("DONE") {
                    out.push(json_string(String::from_str("done")));
                } else {
                    let mut map = json_map_new();
                    json_map_insert(&mut map, String::from_str("->"), json_string(target.clone()));
                    out.push(json_object(map));
                }
            },
            AstStmt::Unsupported { .. } => {},
        }
        proof {
            let prefix = stmt_views(stmts@.take(i + 1));
            assert(prefix.drop_last() =~= stmt_views(stmts@.take(i as int)));
            assert(prefix.last() == stmts@[i as int]@);
            assert(values_model(out@) =~= values_model(before) + stmt_json(stmts@[i as int]@));
        }
        i = i + 1;
    }
    assert(stmts@.take(i as int) =~= stmts@);
    out
}

/// Adds `"done"` unless the content already ends in `"done"` or `"end"`.
pub fn ensure_terminator(content: &mut Vec<serde_json::Value>)
    ensures
        values_model(final(content)@) == with_terminator(values_model(old(content)@)),
{
    let n = content.len();
    let mut has_terminator = false;
    if n > 0 {
        match json_node(&content[n - 1]) {
            JsonNode::Str(s) => {
                has_terminator = *s == String::from_str("done") || *s == String::from_str("end");
            },
            _ => {},
        }
    }
    let ghost before = content@;
    if !has_terminator {
        content.push(json_string(String::from_str("done")));
        assert(values_model(content@) =~= values_model(before).push(jstr("done"@)));
    }
}

/// A container: the content, then the named content or `null`.
pub fn build_container(
    content: Vec<serde_json::Value>,
    named: serde_json::Map<String, serde_json::Value>,
) -> (r: serde_json::Value)
    ensures
        json_value_model(r) == container_json(values_model(content@), json_map_model(named)),
{
    let mut content = content;
    let ghost before = content@;
    if json_map_is_empty(&named) {
        content.push(json_null());
    } else {
        content.push(json_object(named));
    }
    assert(values_model(content@) =~= values_model(before).push(
        if json_map_model(named) == empty_object() {
            JsonModel::Null
        } else {
            JsonModel::Object(json_map_model(named))
        },
    ));
    json_array(content)
}

/// The runtime JSON document of a story.
pub fn codegen_story(ast: &AstStory) -> (r: serde_json::Value)
    ensures
        json_value_model(r) == story_json(ast@),
{
    let mut root_content = codegen_stmts(&ast.root);
    ensure_terminator(&mut root_content);
    let mut root_named = json_map_new();
    let mut i: usize = 0;
    while i < ast.knots.len()
        invariant
            i <= ast.knots@.len(),
            json_map_model(root_named) == knots_json(knot_views(ast.knots@.take(i as int))),
        decreases ast.knots@.len() - i,
    {
        let knot: &AstKnot = &ast.knots[i];
        let mut knot_content = codegen_stmts(&knot.body);
        ensure_terminator(&mut knot_content);
        let container = build_container(knot_content, json_map_new());
        json_map_insert(&mut root_named, knot.name.clone(), container);
        proof {
            let prefix = knot_views(ast.knots@.take(i + 1));
            assert(prefix.drop_last() =~= knot_views(ast.knots@.take(i as int)));
            assert(prefix.last() == ast.knots@[i as int]@);
        }
        i = i + 1;
    }
    assert(ast.knots@.take(i as int) =~= ast.knots@);
    let root = build_container(root_content, root_named);
    let mut top = json_map_new();
    json_map_insert(&mut top, String::from_str("inkVersion"), json_from_i64(21));
    json_map_insert(&mut top, String::from_str("root"), root);
    json_object(top)
}

} // verus!
