//! The compiler's entry points: compiling ink source to runtime JSON, and
//! rewriting a JSON text in canonical form.
use vstd::prelude::*;

use crate::ast::{AstStory, SpecStory};
use crate::codegen::{codegen_story, story_json};
use crate::diagnostic::{Diagnostic, DiagnosticSeverity, SpecDiagnostic, diag_views};
use crate::json::{
    JsonModel, JsonNode, json_array, json_clone, json_from_str, json_map_get, json_map_insert,
    json_map_keys, json_map_model, json_map_new, json_node, json_object, json_parse_text,
    json_pretty_text, json_to_string_pretty, json_value_model, string_views, text_lt,
    texts_in_order, values_model,
};
use crate::parser::{Parser, source_is_parsable, spec_diagnostics, spec_story};
use crate::text::starts_with;

verus! {

/// `std::io::Error`, carried through as it is.
#[verifier::external_type_specification]
#[verifier::external_body]
pub struct ExIoError(std::io::Error);

/// Options of a compilation.
#[derive(Debug, Clone)]
pub struct CompileOptions {
    /// In strict mode, diagnostics about unimplemented syntax fail the
    /// compilation.
    pub strict: bool,
    /// Name of the source, for tools that print context.
    pub source_name: Option<String>,
}

impl Default for CompileOptions {
    fn default() -> (r: Self)
        ensures
            !r.strict,
            r.source_name is None,
    {
        CompileOptions { strict: false, source_name: None }
    }
}

/// What a successful compilation gives: the runtime JSON text, the
/// diagnostics, and the syntax tree.
#[derive(Debug, Clone, PartialEq, Eq)]
pub struct CompileOutput {
    pub story_json: String,
    pub diagnostics: Vec<Diagnostic>,
    pub ast: AstStory,
}

/// Why a compilation failed.
#[derive(Debug)]
pub enum CompilerError {
    Io(std::io::Error),
    Json(serde_json::Error),
    Parse { line: usize, message: String },
    StrictMode { count: usize },
}

/// The first error among the diagnostics, if any.
pub open spec fn first_error(ds: Seq<SpecDiagnostic>) -> Option<SpecDiagnostic>
    decreases ds.len(),
{
    if ds.len() == 0 {
        None
    } else if ds[0].severity == DiagnosticSeverity::Error {
        Some(ds[0])
    } else {
        first_error(ds.drop_first())
    }
}

/// The diagnostic is about unimplemented syntax.
pub open spec fn is_unimplemented_diag(d: SpecDiagnostic) -> bool {
    starts_with(d.code, "UNIMPLEMENTED"@)
}

/// The number of diagnostics about unimplemented syntax.
pub open spec fn unimplemented_count(ds: Seq<SpecDiagnostic>) -> nat
    decreases ds.len(),
{
    if ds.len() == 0 {
        0
    } else {
        unimplemented_count(ds.drop_last()) + if is_unimplemented_diag(ds.last()) {
            1nat
        } else {
            0nat
        }
    }
}

/// The outcome of compiling `src` with strict mode `strict`: the first
/// error diagnostic fails it; else, in strict mode, any diagnostic about
/// unimplemented syntax fails it; else it succeeds.
pub open spec fn compile_result_matches(
    src: Seq<char>,
    strict: bool,
    r: Result<CompileOutput, CompilerError>,
) -> bool {
    let story = spec_story(src);
    let ds = spec_diagnostics(src);
    match r {
        Ok(out) => {
            &&& first_error(ds) is None
            &&& !(strict && unimplemented_count(ds) > 0)
            &&& out.ast@ == story
            &&& diag_views(out.diagnostics@) == ds
            &&& out.story_json@ == json_pretty_text(story_json(story))
        },
        Err(CompilerError::Parse { line, message }) => {
            &&& first_error(ds) matches Some(d)
            &&& line == d.line
            &&& message@ == d.message
        },
        Err(CompilerError::StrictMode { count }) => {
            &&& first_error(ds) is None
            &&& strict
            &&& count == unimplemented_count(ds)
            &&& count > 0
        },
        Err(_) => false,
    }
}

/// The first error among the diagnostics, if any.
fn find_first_error(ds: &Vec<Diagnostic>) -> (r: Option<&Diagnostic>)
    ensures
        match r {
            Some(d) => first_error(diag_views(ds@)) == Some(d@),
            None => first_error(diag_views(ds@)) is None,
        },
{
    let mut i: usize = 0;
    assert(diag_views(ds@).skip(0) =~= diag_views(ds@));
    while i < ds.len()
        invariant
            i <= ds@.len(),
            first_error(diag_views(ds@)) == first_error(diag_views(ds@).skip(i as int)),
        decreases ds@.len() - i,
    {
        let ghost rest = diag_views(ds@).skip(i as int);
        assert(rest[0] == ds@[i as int]@);
        match ds[i].severity {
            DiagnosticSeverity::Error => {
                return Some(&ds[i]);
            },
            DiagnosticSeverity::Warning => {},
        }
        assert(rest.drop_first() =~= diag_views(ds@).skip(i + 1));
        i = i + 1;
    }
    assert(diag_views(ds@).skip(i as int) =~= Seq::<SpecDiagnostic>::empty());
    None
}

/// The number of diagnostics about unimplemented syntax.
fn count_unimplemented(ds: &Vec<Diagnostic>) -> (r: usize)
    ensures
        r == unimplemented_count(diag_views(ds@)),
{
    let mut count: usize = 0;
    let mut i: usize = 0;
    while i < ds.len()
        invariant
            i <= ds@.len(),
            count <= i,
            count == unimplemented_count(diag_views(ds@).take(i as int)),
        decreases ds@.len() - i,
    {
        let ghost prefix = diag_views(ds@).take(i + 1);
        assert(prefix.drop_last() =~= diag_views(ds@).take(i as int));
        assert(prefix.last() == ds@[i as int]@);
        if ds[i].is_unimplemented() {
            count = count + 1;
        }
        i = i + 1;
    }
    assert(diag_views(ds@).take(i as int) =~= diag_views(ds@));
    count
}

/// Compiles ink source to runtime JSON.
///
/// The source is read line by line (see `parser`); the first error
/// diagnostic fails the compilation, and in strict mode so does any
/// diagnostic about unimplemented syntax.
pub fn compile_ink(raw: &str, options: CompileOptions) -> (r: Result<CompileOutput, CompilerError>)
    requires
        source_is_parsable(raw@),
    ensures
        compile_result_matches(raw@, options.strict, r),
{
    let mut parser = Parser::new(raw);
    let (ast, diagnostics) = parser.parse_story();
    if let Some(first_error) = find_first_error(&diagnostics) {
        return Err(CompilerError::Parse { line: first_error.line, message: first_error.message.clone() });
    }
    if options.strict {
        let unimplemented = count_unimplemented(&diagnostics);
        if unimplemented > 0 {
            return Err(CompilerError::StrictMode { count: unimplemented });
        }
    }
    let json_value = codegen_story(&ast);
    let story_json = match json_to_string_pretty(&json_value) {
        Ok(s) => s,
        Err(e) => return Err(CompilerError::Json(e)),
    };
    Ok(CompileOutput { story_json, diagnostics, ast })
}

/// An equal value whose objects were rebuilt key by key in key order.
pub fn canonicalize_value(value: &serde_json::Value) -> (r: serde_json::Value)
    ensures
        json_value_model(r) == json_value_model(*value),
    decreases json_value_model(*value),
{
    match json_node(value) {
        JsonNode::Object(map) => {
            let keys = json_map_keys(map);
            let ghost m = json_map_model(*map);
            let ghost ks = string_views(keys@);
            let mut out = json_map_new();
            let mut i: usize = 0;
            assert(ks.take(0).to_set() =~= Set::<Seq<char>>::empty());
            assert(json_map_model(out) =~= m.restrict(ks.take(0).to_set()));
            while i < keys.len()
                invariant
                    i <= keys@.len(),
                    ks == string_views(keys@),
                    m == json_map_model(*map),
                    m.dom().finite(),
                    json_value_model(*value) == JsonModel::Object(m),
                    texts_in_order(ks),
                    ks.to_set() == m.dom(),
                    json_map_model(out) =~= m.restrict(ks.take(i as int).to_set()),
                decreases keys@.len() - i,
            {
                let ghost k = ks[i as int];
                assert(ks.to_set().contains(k));
                let child = match json_map_get(map, keys[i].as_str()) {
                    Some(v) => v,
                    None => {
                        assert(false);
                        return json_clone(value);
                    },
                };
                proof {
                    broadcast use vstd::map::axiom_map_index_decreases_finite;

                    assert(json_value_model(*value)->Object_0 == m);
                    assert(decreases_to!(json_value_model(*value) => json_value_model(*value)->Object_0));
                    assert(decreases_to!(m => m[k]));
                }
                let canonical = canonicalize_value(child);
                json_map_insert(&mut out, keys[i].clone(), canonical);
                proof {
                    assert(ks.take(i + 1) =~= ks.take(i as int).push(k));
                    ks.take(i as int).lemma_push_to_set_commute(k);
                    assert(ks.take(i + 1).to_set() =~= ks.take(i as int).to_set().insert(k));
                    assert(json_map_model(out) =~= m.restrict(ks.take(i + 1).to_set()));
                }
                i = i + 1;
            }
            assert(ks.take(i as int) =~= ks);
            assert(json_map_model(out) =~= m);
            json_object(out)
        },
        JsonNode::Array(items) => {
            let ghost s = values_model(items@);
            let mut out: Vec<serde_json::Value> = Vec::new();
            let mut i: usize = 0;
            while i < items.len()
                invariant
                    i <= items@.len(),
                    s == values_model(items@),
                    json_value_model(*value) == JsonModel::Array(s),
                    values_model(out@) =~= s.take(i as int),
                decreases items@.len() - i,
            {
                proof {
                    assert(json_value_model(*value)->Array_0 == s);
                    assert(decreases_to!(json_value_model(*value) => json_value_model(*value)->Array_0));
                    assert(s[i as int] == json_value_model(items@[i as int]));
                    assert(decreases_to!(s => s[i as int]));
                }
                let canonical = canonicalize_value(&items[i]);
                let ghost before = out@;
                out.push(canonical);
                assert(values_model(out@) =~= values_model(before).push(json_value_model(canonical)));
                assert(values_model(out@) =~= s.take(i + 1));
                i = i + 1;
            }
            assert(s.take(i as int) =~= s);
            json_array(out)
        },
        _ => json_clone(value),
    }
}

/// Rewrites a JSON text in canonical pretty-printed form (objects by key
/// order, two-space indentation).
pub fn canonicalize_json(raw: &str) -> (r: Result<String, CompilerError>)
    ensures
        r is Ok <==> json_parse_text(raw@) is Some,
        r matches Ok(s) ==> s@ == json_pretty_text(json_parse_text(raw@).unwrap()),
        r matches Err(e) ==> e is Json,
{
    let value = match json_from_str(raw) {
        Ok(v) => v,
        Err(e) => return Err(CompilerError::Json(e)),
    };
    let canonical = canonicalize_value(&value);
    match json_to_string_pretty(&canonical) {
        Ok(s) => Ok(s),
        Err(e) => Err(CompilerError::Json(e)),
    }
}

} // verus!
