//! Properties of the library that hold across calls and inputs.
use vstd::prelude::*;

use crate::ast::{SpecKnot, SpecStmt, SpecStory, opt_seq};
use crate::codegen::{
    container_json, divert_object, jstr, knot_json, knots_json, stmt_json, stmts_json, story_json,
    with_terminator,
};
use crate::compiler::{CompileOutput, CompilerError, compile_result_matches, first_error};
use crate::diagnostic::{SpecDiagnostic, diag_views};
use crate::ink_json::{spec_parse_container, spec_parse_node, spec_parse_nodes, spec_tail_entries, spec_top_level};
use crate::json::{JsonModel, JsonNumber, empty_object, json_compact_text, lemma_sorted_keys, sorted_keys};
use crate::model::{SpecContainer, SpecDoc, SpecNode, text_fragment};
use crate::parser::{
    diags_between, knot_at, knot_end, knot_header_name, knots_from, line_diag_at, line_meaning,
    line_no, line_stmt_at, spec_diagnostics, stmts_between,
};
use crate::cli::{ForwardedOptions, flatten_texts, forwarded_args};
use crate::runtime::{
    ends_line, flatten, lines_from, lemma_line_end_bounds, lemma_text_concat, lemma_warnings_concat, line_end,
    text_between, warnings_between,
};
use crate::text::{ascii_upper, is_ws, lines_of, trim, trim_end, trim_start};

verus! {

/// The line number of a statement.
pub open spec fn stmt_line(st: SpecStmt) -> usize {
    match st {
        SpecStmt::Text { line, .. } => line,
        SpecStmt::Divert { line, .. } => line,
        SpecStmt::Unsupported { line, .. } => line,
    }
}

/// The value is the string `"done"` or `"end"`.
pub open spec fn is_terminator(v: JsonModel) -> bool {
    v == jstr("done"@) || v == jstr("end"@)
}

/// A container's content (all but its last slot) ends in a terminator.
pub open spec fn container_terminated(v: JsonModel) -> bool {
    &&& v is Array
    &&& v->Array_0.len() >= 2
    &&& is_terminator(v->Array_0[v->Array_0.len() - 2])
}

/// Strict mode only adds failures: where a strict compilation succeeds, a
/// lenient one of the same source succeeds with the same output.
pub proof fn law_strict_success_implies_lenient_success(
    src: Seq<char>,
    strict_result: Result<CompileOutput, CompilerError>,
    lenient_result: Result<CompileOutput, CompilerError>,
)
    requires
        compile_result_matches(src, true, strict_result),
        compile_result_matches(src, false, lenient_result),
        strict_result is Ok,
    ensures
        lenient_result is Ok,
        lenient_result->Ok_0.ast@ == strict_result->Ok_0.ast@,
        diag_views(lenient_result->Ok_0.diagnostics@) == diag_views(
            strict_result->Ok_0.diagnostics@,
        ),
        lenient_result->Ok_0.story_json@ == strict_result->Ok_0.story_json@,
{
}

/// A lenient compilation fails exactly when the source has an error
/// diagnostic, and then with a parse error.
pub proof fn law_lenient_fails_exactly_on_errors(
    src: Seq<char>,
    r: Result<CompileOutput, CompilerError>,
)
    requires
        compile_result_matches(src, false, r),
    ensures
        r is Ok <==> first_error(spec_diagnostics(src)) is None,
        r is Err ==> r->Err_0 is Parse,
{
}

/// The diagnostic of a line carries that line's number.
proof fn lemma_line_diag_line(ls: Seq<Seq<char>>, i: int)
    requires
        0 <= i < ls.len(),
    ensures
        line_diag_at(ls, i) matches Some(d) ==> d.line == line_no(i) && d.column == 1,
        line_stmt_at(ls, i) matches Some(st) ==> stmt_line(st) == line_no(i),
{
}

proof fn lemma_diags_ordered(ls: Seq<Seq<char>>, b: int)
    requires
        0 <= b <= ls.len(),
        ls.len() < usize::MAX,
    ensures
        forall|i: int|
            0 <= i < diags_between(ls, 0, b).len() ==> 1 <= #[trigger] diags_between(ls, 0, b)[i].line
                <= b && diags_between(ls, 0, b)[i].column == 1,
        forall|i: int, j: int|
            0 <= i < j < diags_between(ls, 0, b).len() ==> #[trigger] diags_between(ls, 0, b)[i].line
                <= #[trigger] diags_between(ls, 0, b)[j].line,
    decreases b,
{
    if b > 0 {
        lemma_diags_ordered(ls, b - 1);
        lemma_line_diag_line(ls, b - 1);
        let prev = diags_between(ls, 0, b - 1);
        assert(diags_between(ls, 0, b) == prev + opt_seq(line_diag_at(ls, b - 1)));
    }
}

proof fn lemma_stmts_ordered(ls: Seq<Seq<char>>, a: int, b: int)
    requires
        0 <= a <= b <= ls.len(),
        ls.len() < usize::MAX,
    ensures
        forall|i: int|
            0 <= i < stmts_between(ls, a, b).len() ==> a + 1 <= stmt_line(
                #[trigger] stmts_between(ls, a, b)[i],
            ) <= b,
        forall|i: int, j: int|
            0 <= i < j < stmts_between(ls, a, b).len() ==> stmt_line(
                #[trigger] stmts_between(ls, a, b)[i],
            ) < stmt_line(#[trigger] stmts_between(ls, a, b)[j]),
    decreases b - a,
{
    if b > a {
        lemma_stmts_ordered(ls, a, b - 1);
        lemma_line_diag_line(ls, b - 1);
        let prev = stmts_between(ls, a, b - 1);
        assert(stmts_between(ls, a, b) == prev + opt_seq(line_stmt_at(ls, b - 1)));
    }
}

/// Diagnostics come in the order of their lines, and each names a line of
/// the source, at column 1.
pub proof fn law_diagnostics_in_line_order(src: Seq<char>)
    requires
        lines_of(src).len() < usize::MAX,
    ensures
        forall|i: int|
            0 <= i < spec_diagnostics(src).len() ==> 1 <= #[trigger] spec_diagnostics(src)[i].line
                <= lines_of(src).len() && spec_diagnostics(src)[i].column == 1,
        forall|i: int, j: int|
            0 <= i < j < spec_diagnostics(src).len() ==> #[trigger] spec_diagnostics(src)[i].line
                <= #[trigger] spec_diagnostics(src)[j].line,
{
    lemma_diags_ordered(lines_of(src), lines_of(src).len() as int);
}

/// The statements of a range of lines come one per line at most, in the
/// order of their lines, each naming a line of the range.
pub proof fn law_statements_in_line_order(ls: Seq<Seq<char>>, a: int, b: int)
    requires
        0 <= a <= b <= ls.len(),
        ls.len() < usize::MAX,
    ensures
        forall|i: int|
            0 <= i < stmts_between(ls, a, b).len() ==> a + 1 <= stmt_line(
                #[trigger] stmts_between(ls, a, b)[i],
            ) <= b,
        forall|i: int, j: int|
            0 <= i < j < stmts_between(ls, a, b).len() ==> stmt_line(
                #[trigger] stmts_between(ls, a, b)[i],
            ) < stmt_line(#[trigger] stmts_between(ls, a, b)[j]),
{
    lemma_stmts_ordered(ls, a, b);
}

proof fn lemma_knots_terminated(ks: Seq<crate::ast::SpecKnot>)
    ensures
        forall|k: Seq<char>| #[trigger]
            knots_json(ks).dom().contains(k) ==> container_terminated(knots_json(ks)[k]),
    decreases ks.len(),
{
    if ks.len() > 0 {
        lemma_knots_terminated(ks.drop_last());
        let c = with_terminator(stmts_json(ks.last().body));
        assert(knot_json(ks.last()) == container_json(c, empty_object()));
        assert(c.len() > 0 && is_terminator(c.last()));
        assert(container_json(c, empty_object())->Array_0[c.len() - 1] == c.last());
        assert(container_terminated(knot_json(ks.last())));
        let prev = knots_json(ks.drop_last());
        assert(knots_json(ks) == prev.insert(ks.last().name, knot_json(ks.last())));
        assert forall|k: Seq<char>| #[trigger]
            knots_json(ks).dom().contains(k) implies container_terminated(knots_json(ks)[k]) by {
            if k != ks.last().name {
                assert(prev.dom().contains(k));
            }
        }
    }
}

/// Every container that compilation emits, the root and each knot, ends
/// its content in `"done"` or `"end"`.
pub proof fn law_generated_containers_terminated(st: SpecStory)
    ensures
        story_json(st)->Object_0.dom().contains("root"@),
        container_terminated(story_json(st)->Object_0["root"@]),
        forall|k: Seq<char>| #[trigger]
            knots_json(st.knots).dom().contains(k) ==> container_terminated(
                knots_json(st.knots)[k],
            ),
{
    let c = with_terminator(stmts_json(st.root));
    let root = container_json(c, knots_json(st.knots));
    assert(story_json(st)->Object_0["root"@] == root);
    assert(root->Array_0[c.len() - 1] == c.last());
    lemma_knots_terminated(st.knots);
}

/// Reading one line and then the rest gives the same text, and the same
/// warnings, as reading everything at once.
pub proof fn law_line_then_rest_is_everything(c: Seq<SpecNode>, s: int)
    requires
        0 <= s <= c.len(),
    ensures
        text_between(c, s, line_end(c, s)) + text_between(c, line_end(c, s), c.len() as int)
            == text_between(c, s, c.len() as int),
        warnings_between(c, s, line_end(c, s)) + warnings_between(
            c,
            line_end(c, s),
            c.len() as int,
        ) == warnings_between(c, s, c.len() as int),
{
    lemma_line_end_bounds(c, s);
    lemma_text_concat(c, s, line_end(c, s), c.len() as int);
    lemma_warnings_concat(c, s, line_end(c, s), c.len() as int);
}

/// A line read before the end of the story ends with a line break, and
/// reading never stands still while content is left.
pub proof fn law_line_ends_with_break(c: Seq<SpecNode>, s: int)
    requires
        0 <= s < c.len(),
    ensures
        s < line_end(c, s) <= c.len(),
        line_end(c, s) < c.len() ==> ends_line(c[line_end(c, s) - 1]),
{
    lemma_line_end_bounds(c, s);
}

/// Flattening leaves no container behind: a story made from a document
/// never meets a nested container while it reads.
pub proof fn law_flattened_content_has_no_container(nodes: Seq<SpecNode>)
    ensures
        forall|i: int| 0 <= i < flatten(nodes).len() ==> !(#[trigger] flatten(nodes)[i] is Container),
    decreases nodes,
{
    if nodes.len() > 0 {
        let front = nodes.subrange(0, nodes.len() - 1);
        let last = nodes[nodes.len() - 1];
        law_flattened_content_has_no_container(front);
        if let SpecNode::Container(c) = last {
            assert(decreases_to!(nodes => last));
            law_flattened_content_has_no_container(c.content);
        }
    }
}

/// The text that reading a statement gives: a text line and a line break.
pub open spec fn stmt_text(st: SpecStmt) -> Seq<char> {
    match st {
        SpecStmt::Text { text, .. } => text + "\n"@,
        _ => seq![],
    }
}

/// The text that reading a sequence of statements gives.
pub open spec fn stmts_text(s: Seq<SpecStmt>) -> Seq<char>
    decreases s.len(),
{
    if s.len() == 0 {
        seq![]
    } else {
        stmts_text(s.drop_last()) + stmt_text(s.last())
    }
}

/// The runtime nodes that the generated content of a statement loads as.
spec fn stmt_nodes(st: SpecStmt) -> Seq<SpecNode> {
    match st {
        SpecStmt::Text { text, .. } => seq![SpecNode::Str(text), SpecNode::Newline],
        SpecStmt::Divert { target, .. } => if ascii_upper(target) == "END"@ {
            seq![SpecNode::Command("end"@)]
        } else if ascii_upper(target) == "DONE"@ {
            seq![SpecNode::Command("done"@)]
        } else {
            seq![SpecNode::UnknownJson(json_compact_text(divert_object(target)))]
        },
        SpecStmt::Unsupported { .. } => seq![],
    }
}

spec fn stmts_nodes(s: Seq<SpecStmt>) -> Seq<SpecNode>
    decreases s.len(),
{
    if s.len() == 0 {
        seq![]
    } else {
        stmts_nodes(s.drop_last()) + stmt_nodes(s.last())
    }
}

/// No node of the sequence is a container.
spec fn plain(c: Seq<SpecNode>) -> bool {
    forall|i: int| 0 <= i < c.len() ==> !(#[trigger] c[i] is Container)
}

proof fn lemma_parse_nodes_append(a: Seq<JsonModel>, b: Seq<JsonModel>)
    requires
        spec_parse_nodes(a) is Ok,
        spec_parse_nodes(b) is Ok,
    ensures
        spec_parse_nodes(a + b) == Ok::<Seq<SpecNode>, Seq<char>>(
            spec_parse_nodes(a)->Ok_0 + spec_parse_nodes(b)->Ok_0,
        ),
    decreases b.len(),
{
    if b.len() == 0 {
        assert(a + b =~= a);
        assert(spec_parse_nodes(b)->Ok_0 =~= Seq::<SpecNode>::empty());
        assert(spec_parse_nodes(a)->Ok_0 + spec_parse_nodes(b)->Ok_0 =~= spec_parse_nodes(a)->Ok_0);
    } else {
        let front = b.subrange(0, b.len() - 1);
        let last = b[b.len() - 1];
        lemma_parse_nodes_append(a, front);
        assert((a + b).subrange(0, (a + b).len() - 1) =~= a + front);
        assert((a + b)[(a + b).len() - 1] == last);
        let pa = spec_parse_nodes(a)->Ok_0;
        let pf = spec_parse_nodes(front)->Ok_0;
        let n = spec_parse_node(last)->Ok_0;
        assert(pa + pf.push(n) =~= (pa + pf).push(n));
    }
}

proof fn lemma_parse_push(a: Seq<JsonModel>, x: JsonModel)
    requires
        spec_parse_nodes(a) is Ok,
        spec_parse_node(x) is Ok,
    ensures
        spec_parse_nodes(a.push(x)) == Ok::<Seq<SpecNode>, Seq<char>>(
            spec_parse_nodes(a)->Ok_0.push(spec_parse_node(x)->Ok_0),
        ),
{
    assert(a.push(x).subrange(0, a.len() as int) =~= a);
    assert(a.push(x)[a.len() as int] == x);
}

proof fn lemma_parse_stmt(st: SpecStmt)
    ensures
        spec_parse_nodes(stmt_json(st)) == Ok::<Seq<SpecNode>, Seq<char>>(stmt_nodes(st)),
{
    reveal_strlit("\n");
    reveal_strlit("^");
    reveal_strlit("end");
    reveal_strlit("done");
    reveal_strlit("->");
    reveal_strlit("^->");
    let e = Seq::<JsonModel>::empty();
    assert(spec_parse_nodes(e) == Ok::<Seq<SpecNode>, Seq<char>>(seq![]));
    match st {
        SpecStmt::Text { text, .. } => {
            let s = "^"@ + text;
            assert(s[0] == '^');
            assert(s != "\n"@);
            assert(s.drop_first() =~= text);
            assert(spec_parse_node(jstr(s)) == Ok::<SpecNode, Seq<char>>(SpecNode::Str(text)));
            assert(spec_parse_node(jstr("\n"@)) == Ok::<SpecNode, Seq<char>>(SpecNode::Newline));
            lemma_parse_push(e, jstr(s));
            assert(e.push(jstr(s)) =~= seq![jstr(s)]);
            lemma_parse_push(seq![jstr(s)], jstr("\n"@));
            assert(seq![jstr(s)].push(jstr("\n"@)) =~= stmt_json(st));
            assert(seq![SpecNode::Str(text)] =~= Seq::<SpecNode>::empty().push(SpecNode::Str(text)));
            assert(stmt_nodes(st) =~= seq![SpecNode::Str(text)].push(SpecNode::Newline));
        },
        SpecStmt::Divert { target, .. } => {
            let x = stmt_json(st)[0];
            assert(stmt_json(st) =~= e.push(x));
            if ascii_upper(target) == "END"@ {
                assert("end"@ != "\n"@ && "end"@[0] != '^');
                assert(spec_parse_node(x) == Ok::<SpecNode, Seq<char>>(SpecNode::Command("end"@)));
            } else if ascii_upper(target) == "DONE"@ {
                assert("done"@ != "\n"@ && "done"@[0] != '^');
                assert(spec_parse_node(x) == Ok::<SpecNode, Seq<char>>(SpecNode::Command("done"@)));
            } else {
                let m = empty_object().insert("->"@, jstr(target));
                assert("^->"@.len() == 3 && "->"@.len() == 2);
                assert(!m.dom().contains("^->"@));
                assert(spec_parse_node(x) == Ok::<SpecNode, Seq<char>>(
                    SpecNode::UnknownJson(json_compact_text(divert_object(target))),
                ));
            }
            lemma_parse_push(e, x);
            assert(stmt_nodes(st) =~= Seq::<SpecNode>::empty().push(spec_parse_node(x)->Ok_0));
        },
        SpecStmt::Unsupported { .. } => {
            assert(stmt_json(st) =~= e);
            assert(stmt_nodes(st) =~= Seq::<SpecNode>::empty());
        },
    }
}

proof fn lemma_parse_stmts(s: Seq<SpecStmt>)
    ensures
        spec_parse_nodes(stmts_json(s)) == Ok::<Seq<SpecNode>, Seq<char>>(stmts_nodes(s)),
        plain(stmts_nodes(s)),
    decreases s.len(),
{
    if s.len() == 0 {
        assert(stmts_json(s) =~= Seq::<JsonModel>::empty());
    } else {
        lemma_parse_stmts(s.drop_last());
        lemma_parse_stmt(s.last());
        lemma_parse_nodes_append(stmts_json(s.drop_last()), stmt_json(s.last()));
        let a = stmts_nodes(s.drop_last());
        let b = stmt_nodes(s.last());
        assert forall|i: int| 0 <= i < stmts_nodes(s).len() implies !(#[trigger] stmts_nodes(
            s,
        )[i] is Container) by {
            if i >= a.len() {
                assert(stmts_nodes(s)[i] == b[i - a.len()]);
            } else {
                assert(stmts_nodes(s)[i] == a[i]);
            }
        }
    }
}

/// The nodes that the generated content of a statement sequence loads as,
/// with the terminator that generation adds.
spec fn terminated_nodes(s: Seq<SpecStmt>) -> Seq<SpecNode> {
    if stmts_json(s) == with_terminator(stmts_json(s)) {
        stmts_nodes(s)
    } else {
        stmts_nodes(s).push(SpecNode::Command("done"@))
    }
}

proof fn lemma_parse_terminated(s: Seq<SpecStmt>)
    ensures
        spec_parse_nodes(with_terminator(stmts_json(s))) == Ok::<Seq<SpecNode>, Seq<char>>(
            terminated_nodes(s),
        ),
        plain(terminated_nodes(s)),
{
    reveal_strlit("\n");
    reveal_strlit("done");
    lemma_parse_stmts(s);
    let c = stmts_json(s);
    if c != with_terminator(c) {
        assert(with_terminator(c) == c.push(jstr("done"@)));
        assert("done"@.len() == 4 && "\n"@.len() == 1);
        assert("done"@ != "\n"@ && "done"@[0] != '^');
        assert(spec_parse_node(jstr("done"@)) == Ok::<SpecNode, Seq<char>>(SpecNode::Command("done"@)));
        lemma_parse_push(c, jstr("done"@));
        let t = terminated_nodes(s);
        assert forall|i: int| 0 <= i < t.len() implies !(#[trigger] t[i] is Container) by {
            if i < stmts_nodes(s).len() {
                assert(t[i] == stmts_nodes(s)[i]);
            }
        }
    }
}

proof fn lemma_text_ext(c1: Seq<SpecNode>, c2: Seq<SpecNode>, a: int, b: int)
    requires
        0 <= a,
        b <= c1.len(),
        b <= c2.len(),
        forall|i: int| a <= i < b ==> c1[i] == c2[i],
    ensures
        text_between(c1, a, b) == text_between(c2, a, b),
    decreases b - a,
{
    if b > a {
        lemma_text_ext(c1, c2, a, b - 1);
    }
}

proof fn lemma_text_append(p: Seq<SpecNode>, q: Seq<SpecNode>)
    ensures
        text_between(p + q, 0, (p + q).len() as int) == text_between(p, 0, p.len() as int)
            + text_between(q, 0, q.len() as int),
    decreases q.len(),
{
    if q.len() == 0 {
        assert(p + q =~= p);
        assert(text_between(q, 0, 0) =~= Seq::<char>::empty());
        assert(text_between(p, 0, p.len() as int) + text_between(q, 0, 0) =~= text_between(
            p,
            0,
            p.len() as int,
        ));
    } else {
        let f = q.drop_last();
        let x = q.last();
        let n = (p + q).len() as int;
        lemma_text_append(p, f);
        lemma_text_ext(p + q, p + f, 0, n - 1);
        lemma_text_ext(q, f, 0, q.len() - 1);
        let t = match text_fragment(x) {
            Some(t) => t,
            None => seq![],
        };
        assert((p + q)[n - 1] == x);
        assert(text_between(p + q, 0, n) == text_between(p + q, 0, n - 1) + t);
        assert(text_between(q, 0, q.len() as int) == text_between(q, 0, q.len() - 1) + t);
        assert(text_between(p, 0, p.len() as int) + text_between(f, 0, f.len() as int) + t
            =~= text_between(p, 0, p.len() as int) + (text_between(f, 0, f.len() as int) + t));
    }
}

proof fn lemma_stmt_text(st: SpecStmt)
    ensures
        text_between(stmt_nodes(st), 0, stmt_nodes(st).len() as int) == stmt_text(st),
{
    reveal_strlit("\n");
    let c = stmt_nodes(st);
    match st {
        SpecStmt::Text { text, .. } => {
            assert(text_between(c, 0, 0) =~= Seq::<char>::empty());
            assert(text_between(c, 0, 1) =~= text);
            assert(text_between(c, 0, 2) =~= text + "\n"@);
        },
        SpecStmt::Divert { .. } => {
            assert(text_between(c, 0, 0) =~= Seq::<char>::empty());
            assert(text_between(c, 0, 1) =~= Seq::<char>::empty());
        },
        SpecStmt::Unsupported { .. } => {},
    }
}

proof fn lemma_stmts_text(s: Seq<SpecStmt>)
    ensures
        text_between(terminated_nodes(s), 0, terminated_nodes(s).len() as int) == stmts_text(s),
        text_between(stmts_nodes(s), 0, stmts_nodes(s).len() as int) == stmts_text(s),
    decreases s.len(),
{
    if s.len() > 0 {
        lemma_stmts_text(s.drop_last());
        lemma_stmt_text(s.last());
        lemma_text_append(stmts_nodes(s.drop_last()), stmt_nodes(s.last()));
    }
    let c = stmts_nodes(s);
    let d = seq![SpecNode::Command("done"@)];
    lemma_text_append(c, d);
    assert(text_between(d, 0, 0) =~= Seq::<char>::empty());
    assert(text_between(d, 0, 1) =~= Seq::<char>::empty());
    assert(c + d =~= c.push(SpecNode::Command("done"@)));
    assert(text_between(c, 0, c.len() as int) + Seq::<char>::empty() =~= text_between(
        c,
        0,
        c.len() as int,
    ));
}

proof fn lemma_flatten_plain(c: Seq<SpecNode>)
    requires
        plain(c),
    ensures
        flatten(c) == c,
    decreases c.len(),
{
    if c.len() > 0 {
        let front = c.subrange(0, c.len() - 1);
        assert(plain(front)) by {
            assert forall|i: int| 0 <= i < front.len() implies !(#[trigger] front[i] is Container) by {
                assert(front[i] == c[i]);
            }
        }
        lemma_flatten_plain(front);
        assert(!(c[c.len() - 1] is Container));
        assert(front.push(c[c.len() - 1]) =~= c);
    }
}

/// The text that reading a container's content to the end gives.
pub open spec fn container_text(c: SpecContainer) -> Seq<char> {
    text_between(flatten(c.content), 0, flatten(c.content).len() as int)
}

/// The names of a story's knots.
pub open spec fn knot_names(ks: Seq<SpecKnot>) -> Set<Seq<char>> {
    ks.map_values(|k: SpecKnot| k.name).to_set()
}

/// The body of the last knot of the given name.
pub open spec fn last_body_named(ks: Seq<SpecKnot>, n: Seq<char>) -> Seq<SpecStmt>
    decreases ks.len(),
{
    if ks.len() == 0 {
        seq![]
    } else if ks.last().name == n {
        ks.last().body
    } else {
        last_body_named(ks.drop_last(), n)
    }
}

/// A key that a container's tail object holds metadata under.
pub open spec fn is_meta_key(k: Seq<char>) -> bool {
    k == "#f"@ || k == "#n"@
}

/// The names of named content.
pub open spec fn entry_names(named: Seq<(Seq<char>, SpecNode)>) -> Seq<Seq<char>> {
    named.map_values(|e: (Seq<char>, SpecNode)| e.0)
}

/// The generated container of a statement sequence.
spec fn body_json(body: Seq<SpecStmt>) -> JsonModel {
    container_json(with_terminator(stmts_json(body)), empty_object())
}

proof fn lemma_body_loads(body: Seq<SpecStmt>)
    ensures
        spec_parse_node(body_json(body)) == Ok::<SpecNode, Seq<char>>(
            SpecNode::Container(
                SpecContainer { content: terminated_nodes(body), named: seq![], name: None, flags: None },
            ),
        ),
        container_text(
            SpecContainer { content: terminated_nodes(body), named: seq![], name: None, flags: None },
        ) == stmts_text(body),
{
    let c = with_terminator(stmts_json(body));
    let items = c.push(JsonModel::Null);
    lemma_parse_terminated(body);
    assert(items.subrange(0, items.len() - 1) =~= c);
    assert(spec_parse_container(body_json(body)) == Ok::<SpecContainer, Seq<char>>(
        SpecContainer { content: terminated_nodes(body), named: seq![], name: None, flags: None },
    ));
    lemma_flatten_plain(terminated_nodes(body));
    lemma_stmts_text(body);
}

proof fn lemma_knots_map(ks: Seq<SpecKnot>)
    ensures
        knots_json(ks).dom().finite(),
        knots_json(ks).dom() == knot_names(ks),
        forall|n: Seq<char>| #[trigger]
            knots_json(ks).dom().contains(n) ==> knots_json(ks)[n] == body_json(
                last_body_named(ks, n),
            ),
    decreases ks.len(),
{
    if ks.len() == 0 {
        assert(ks.map_values(|k: SpecKnot| k.name) =~= Seq::<Seq<char>>::empty());
        assert(knot_names(ks) =~= Set::<Seq<char>>::empty());
        assert(knots_json(ks) == empty_object());
    } else {
        let f = ks.drop_last();
        let x = ks.last();
        lemma_knots_map(f);
        assert(ks.map_values(|k: SpecKnot| k.name) =~= f.map_values(|k: SpecKnot| k.name).push(
            x.name,
        ));
        f.map_values(|k: SpecKnot| k.name).lemma_push_to_set_commute(x.name);
        assert(knot_names(ks) =~= knot_names(f).insert(x.name));
        assert(knots_json(ks) == knots_json(f).insert(x.name, knot_json(x)));
        assert(knot_json(x) == body_json(x.body));
        assert(knots_json(ks).dom() =~= knot_names(ks));
    }
}

/// The named entries that a tail object of containers gives, read in the
/// order `ks`.
spec fn tail_named(m: Map<Seq<char>, JsonModel>, ks: Seq<Seq<char>>) -> Seq<(Seq<char>, SpecNode)>
    decreases ks.len(),
{
    if ks.len() == 0 {
        seq![]
    } else if is_meta_key(ks.last()) {
        tail_named(m, ks.drop_last())
    } else {
        tail_named(m, ks.drop_last()).push((ks.last(), spec_parse_node(m[ks.last()])->Ok_0))
    }
}

proof fn lemma_tail_entries(m: Map<Seq<char>, JsonModel>, ks: Seq<Seq<char>>)
    requires
        m.dom().finite(),
        forall|i: int| 0 <= i < ks.len() ==> m.dom().contains(#[trigger] ks[i]),
        forall|k: Seq<char>| #[trigger]
            m.dom().contains(k) ==> m[k] is Array && spec_parse_node(m[k]) is Ok,
    ensures
        spec_tail_entries(m, ks) == Ok::<
            (Seq<(Seq<char>, SpecNode)>, Option<Seq<char>>, Option<i32>),
            Seq<char>,
        >((tail_named(m, ks), None, None)),
        entry_names(tail_named(m, ks)) == ks.filter(|k: Seq<char>| !is_meta_key(k)),
    decreases ks.len(),
{
    reveal(Seq::filter);
    reveal_strlit("#f");
    reveal_strlit("#n");
    if ks.len() > 0 {
        let f = ks.drop_last();
        let k = ks.last();
        assert(ks.subrange(0, ks.len() - 1) == f);
        assert forall|i: int| 0 <= i < f.len() implies m.dom().contains(#[trigger] f[i]) by {
            assert(f[i] == ks[i]);
        }
        lemma_tail_entries(m, f);
        assert(m.dom().contains(ks[ks.len() - 1]));
        let prev = tail_named(m, f);
        if !is_meta_key(k) {
            assert(entry_names(prev.push((k, spec_parse_node(m[k])->Ok_0))) =~= entry_names(
                prev,
            ).push(k));
        }
    }
}

/// What the compiler generates, the loader reads back. The document of a
/// story loads, at ink version 21, with a root container that has no name
/// and no flags and whose content reads, to the end, as each root text line
/// followed by a line break. Its named content holds the knots, by name in
/// increasing order (except a knot named `#f` or `#n`, which the loader
/// takes for metadata), each a container that reads as the text of the
/// last knot of its name.
pub proof fn law_generated_document_reads_back(st: SpecStory)
    ensures
        spec_top_level(story_json(st)) is Ok,
        ({
            let d = spec_top_level(story_json(st))->Ok_0;
            &&& d.ink_version == 21
            &&& d.root.name is None
            &&& d.root.flags is None
            &&& container_text(d.root) == stmts_text(st.root)
            &&& entry_names(d.root.named) == sorted_keys(knot_names(st.knots)).filter(
                |k: Seq<char>| !is_meta_key(k),
            )
            &&& forall|i: int|
                0 <= i < d.root.named.len() ==> (#[trigger] d.root.named[i]).1 is Container
                    && container_text(d.root.named[i].1->Container_0) == stmts_text(
                    last_body_named(st.knots, d.root.named[i].0),
                )
        }),
{
    reveal_strlit("inkVersion");
    reveal_strlit("root");
    let c = with_terminator(stmts_json(st.root));
    let knots = knots_json(st.knots);
    let root = container_json(c, knots);
    let version = JsonModel::Number(JsonNumber::PosInt(21));
    let m = empty_object().insert("inkVersion"@, version).insert("root"@, root);
    assert(story_json(st) == JsonModel::Object(m));
    assert("inkVersion"@.len() == 10 && "root"@.len() == 4);
    assert(m["inkVersion"@] == version);
    assert(m["root"@] == root);
    lemma_parse_terminated(st.root);
    lemma_flatten_plain(terminated_nodes(st.root));
    lemma_stmts_text(st.root);
    lemma_knots_map(st.knots);
    let items = root->Array_0;
    assert(items.subrange(0, items.len() - 1) =~= c);
    let content = terminated_nodes(st.root);
    let ks = sorted_keys(knots.dom());
    lemma_sorted_keys(knots.dom());
    assert forall|k: Seq<char>| #[trigger]
        knots.dom().contains(k) implies knots[k] is Array && spec_parse_node(knots[k]) is Ok by {
        lemma_body_loads(last_body_named(st.knots, k));
    }
    assert forall|i: int| 0 <= i < ks.len() implies knots.dom().contains(#[trigger] ks[i]) by {
        assert(ks.to_set().contains(ks[i]));
    }
    lemma_tail_entries(knots, ks);
    let named = tail_named(knots, ks);
    if knots == empty_object() {
        assert(knots.dom() =~= Set::<Seq<char>>::empty());
        assert(ks.len() == 0) by {
            if ks.len() > 0 {
                assert(ks.to_set().contains(ks[0]));
            }
        }
        assert(named =~= Seq::<(Seq<char>, SpecNode)>::empty());
        reveal(Seq::filter);
        assert(spec_parse_container(root) == Ok::<SpecContainer, Seq<char>>(
            SpecContainer { content, named: seq![], name: None, flags: None },
        ));
    } else {
        assert(spec_parse_container(root) == Ok::<SpecContainer, Seq<char>>(
            SpecContainer { content, named, name: None, flags: None },
        ));
    }
    let d = spec_top_level(story_json(st))->Ok_0;
    assert(d.root.named == named);
    assert forall|i: int| 0 <= i < named.len() implies (#[trigger] named[i]).1 is Container
        && container_text(named[i].1->Container_0) == stmts_text(
        last_body_named(st.knots, named[i].0),
    ) by {
        lemma_named_entry(knots, ks, i, st.knots);
    }
}

proof fn lemma_named_entry(
    m: Map<Seq<char>, JsonModel>,
    ks: Seq<Seq<char>>,
    i: int,
    knots: Seq<SpecKnot>,
)
    requires
        m == knots_json(knots),
        forall|j: int| 0 <= j < ks.len() ==> m.dom().contains(#[trigger] ks[j]),
        0 <= i < tail_named(m, ks).len(),
    ensures
        (#[trigger] tail_named(m, ks)[i]).1 is Container,
        container_text(tail_named(m, ks)[i].1->Container_0) == stmts_text(
            last_body_named(knots, tail_named(m, ks)[i].0),
        ),
    decreases ks.len(),
{
    lemma_knots_map(knots);
    let f = ks.drop_last();
    let k = ks.last();
    assert forall|j: int| 0 <= j < f.len() implies m.dom().contains(#[trigger] f[j]) by {
        assert(f[j] == ks[j]);
    }
    if !is_meta_key(k) && i == tail_named(m, f).len() {
        assert(m.dom().contains(ks[ks.len() - 1]));
        lemma_body_loads(last_body_named(knots, k));
    } else {
        lemma_named_entry(m, f, i, knots);
    }
}

proof fn lemma_flatten_texts_front(x: Seq<char>, rest: Seq<Seq<char>>)
    ensures
        flatten_texts(seq![x] + rest) == x + flatten_texts(rest),
    decreases rest.len(),
{
    if rest.len() == 0 {
        assert(seq![x] + rest =~= seq![x]);
        assert(seq![x].drop_last() =~= Seq::<Seq<char>>::empty());
        assert(flatten_texts(Seq::<Seq<char>>::empty()) =~= Seq::<char>::empty());
        assert(seq![x].last() == x);
        assert(flatten_texts(seq![x]) == flatten_texts(seq![x].drop_last()) + seq![x].last());
        assert(flatten_texts(seq![x]) =~= x);
        assert(x + flatten_texts(rest) =~= x);
    } else {
        lemma_flatten_texts_front(x, rest.drop_last());
        assert((seq![x] + rest).drop_last() =~= seq![x] + rest.drop_last());
        assert((seq![x] + rest).last() == rest.last());
        assert(x + flatten_texts(rest.drop_last()) + rest.last() =~= x + (flatten_texts(
            rest.drop_last(),
        ) + rest.last()));
    }
}

/// Reading everything at once gives the lines that reading line by line
/// gives, one after another: what `continue_maximally` returns is the
/// concatenation of what repeated `continue_line` calls return until the
/// story cannot continue.
pub proof fn law_everything_is_the_lines_in_turn(c: Seq<SpecNode>, s: int)
    requires
        0 <= s,
    ensures
        flatten_texts(lines_from(c, s)) == text_between(c, s, c.len() as int),
    decreases c.len() - s,
{
    if s >= c.len() {
        assert(lines_from(c, s) =~= Seq::<Seq<char>>::empty());
        assert(text_between(c, s, c.len() as int) =~= Seq::<char>::empty());
    } else {
        let e = line_end(c, s);
        lemma_line_end_bounds(c, s);
        law_everything_is_the_lines_in_turn(c, e);
        assert(lines_from(c, s) == seq![text_between(c, s, e)] + lines_from(c, e));
        lemma_flatten_texts_front(text_between(c, s, e), lines_from(c, e));
        lemma_text_concat(c, s, e, c.len() as int);
    }
}

/// A named output file is always handed on to the fallback backend first:
/// whatever the other options, naming the file `f` puts exactly `-o` and
/// `f` in front of the arguments that the same options without an output
/// file give. The input always comes last.
pub proof fn law_output_file_is_always_forwarded(o: ForwardedOptions, f: String)
    ensures
        ({
            let with_file = ForwardedOptions { output_file: Some(f), ..o };
            let without = ForwardedOptions { output_file: None, ..o };
            forwarded_args(with_file) == seq!["-o"@, f@] + forwarded_args(without)
        }),
        forwarded_args(o).len() > 0,
        forwarded_args(o).last() == o.input@,
{
    let with_file = ForwardedOptions { output_file: Some(f), ..o };
    let without = ForwardedOptions { output_file: None, ..o };
    let h = seq!["-o"@, f@];
    let e = Seq::<Seq<char>>::empty();
    let parts = seq![
        crate::cli::flag_arg(o.play, "-p"@),
        crate::cli::flag_arg(o.json, "-j"@),
        crate::cli::flag_arg(o.stats, "-s"@),
        crate::cli::flag_arg(o.verbose, "-v"@),
        crate::cli::flag_arg(o.count_all_visits, "-c"@),
        crate::cli::flag_arg(o.keep_open, "-k"@),
        crate::cli::plugin_args(crate::cli::texts(o.plugin_dirs@)),
        seq![o.input@],
    ];
    lemma_concat_prefix(h, parts, parts.len() as int);
    lemma_concat_prefix(e, parts, parts.len() as int);
    reveal_with_fuel(concat_from, 9);
    assert(forwarded_args(with_file) == concat_from(h, parts, parts.len() as int));
    assert(forwarded_args(without) == concat_from(e, parts, parts.len() as int));
    assert(e + concat_from(e, parts, parts.len() as int) =~= concat_from(e, parts, parts.len() as int));
}

/// `h` followed by the first `n` parts.
spec fn concat_from(h: Seq<Seq<char>>, parts: Seq<Seq<Seq<char>>>, n: int) -> Seq<Seq<char>>
    decreases n,
{
    if n <= 0 {
        h
    } else {
        concat_from(h, parts, n - 1) + parts[n - 1]
    }
}

proof fn lemma_concat_prefix(h: Seq<Seq<char>>, parts: Seq<Seq<Seq<char>>>, n: int)
    ensures
        concat_from(h, parts, n) == h + concat_from(Seq::empty(), parts, n),
    decreases n,
{
    if n > 0 {
        lemma_concat_prefix(h, parts, n - 1);
        assert(h + concat_from(Seq::empty(), parts, n - 1) + parts[n - 1] =~= h + (concat_from(
            Seq::empty(),
            parts,
            n - 1,
        ) + parts[n - 1]));
    } else {
        assert(h + Seq::<Seq<char>>::empty() =~= h);
    }
}

/// The JSON number that an `i64` is held as.
pub open spec fn i64_number(i: i64) -> JsonModel {
    JsonModel::Number(if i < 0 {
        JsonNumber::NegInt(i)
    } else {
        JsonNumber::PosInt(i as u64)
    })
}

/// A document loads with the version it states: for an object whose
/// `inkVersion` is the integer `i` and whose root loads, the document has
/// version `i` cut to 32 bits and that root. So two documents that differ
/// only in their versions load with different versions when those differ
/// in their low 32 bits.
pub proof fn law_document_keeps_its_version(m: Map<Seq<char>, JsonModel>, i: i64, j: i64)
    requires
        m.dom().contains("root"@),
        spec_parse_container(m["root"@]) is Ok,
    ensures
        spec_top_level(JsonModel::Object(m.insert("inkVersion"@, i64_number(i))))
            == Ok::<SpecDoc, Seq<char>>(
            SpecDoc { ink_version: i as i32, root: spec_parse_container(m["root"@])->Ok_0 },
        ),
        (i as i32) != (j as i32) ==> spec_top_level(
            JsonModel::Object(m.insert("inkVersion"@, i64_number(i))),
        )->Ok_0.ink_version != spec_top_level(
            JsonModel::Object(m.insert("inkVersion"@, i64_number(j))),
        )->Ok_0.ink_version,
{
    reveal_strlit("inkVersion");
    reveal_strlit("root");
    assert("inkVersion"@.len() == 10 && "root"@.len() == 4);
    assert("inkVersion"@ != "root"@);
    let mi = m.insert("inkVersion"@, i64_number(i));
    let mj = m.insert("inkVersion"@, i64_number(j));
    assert(mi["root"@] == m["root"@]);
    assert(mj["root"@] == m["root"@]);
}

/// Only strings and line breaks are text: reading one more node adds the
/// node's string, or a line break, and any other node (an integer, a float,
/// a boolean, a divert target, `null`, a command, a JSON node kept as text,
/// a container) adds nothing. A line ends only at a line break or at a
/// string that is a line break.
pub proof fn law_only_strings_and_breaks_are_text(c: Seq<SpecNode>, a: int, b: int)
    requires
        a <= b < c.len(),
        0 <= b,
    ensures
        text_between(c, a, b + 1) == text_between(c, a, b) + match c[b] {
            SpecNode::Str(t) => t,
            SpecNode::Newline => "\n"@,
            _ => Seq::<char>::empty(),
        },
        ends_line(c[b]) <==> (c[b] is Newline || c[b] == SpecNode::Str("\n"@)),
{
    assert(text_between(c, a, b + 1) == text_between(c, a, b) + match text_fragment(c[b]) {
        Some(t) => t,
        None => seq![],
    });
}

proof fn lemma_flatten_append(a: Seq<SpecNode>, b: Seq<SpecNode>)
    ensures
        flatten(a + b) == flatten(a) + flatten(b),
    decreases b.len(),
{
    if b.len() == 0 {
        assert(a + b =~= a);
        assert(flatten(a) + flatten(b) =~= flatten(a));
    } else {
        let f = b.subrange(0, b.len() - 1);
        let x = b[b.len() - 1];
        lemma_flatten_append(a, f);
        assert((a + b).subrange(0, (a + b).len() - 1) =~= a + f);
        assert((a + b)[(a + b).len() - 1] == x);
        let t = match x {
            SpecNode::Container(c) => flatten(c.content),
            _ => seq![x],
        };
        assert(flatten(a) + flatten(f) + t =~= flatten(a) + (flatten(f) + t));
    }
}

/// Starting a story reads through nested containers: flattening keeps
/// every node that is not a container, in document order, and puts in
/// place of each container, whatever its name, flags and named content,
/// the flattened content of that container.
pub proof fn law_containers_are_read_in_place(a: Seq<SpecNode>, b: Seq<SpecNode>, c: SpecContainer, x: SpecNode)
    ensures
        flatten(a + b) == flatten(a) + flatten(b),
        flatten(seq![SpecNode::Container(c)]) == flatten(c.content),
        !(x is Container) ==> flatten(seq![x]) == seq![x],
{
    lemma_flatten_append(a, b);
    assert(seq![SpecNode::Container(c)].subrange(0, 0) =~= Seq::<SpecNode>::empty());
    assert(seq![x].subrange(0, 0) =~= Seq::<SpecNode>::empty());
    assert(flatten(Seq::<SpecNode>::empty()) + flatten(c.content) =~= flatten(c.content));
    assert(flatten(Seq::<SpecNode>::empty()) + seq![x] =~= seq![x]);
}

/// The characters that `char::is_whitespace` accepts (Unicode
/// `White_Space`), tab included.
pub open spec fn is_unicode_white_space(c: char) -> bool {
    ||| c == '\t' || c == '\n' || c == '\u{0B}' || c == '\u{0C}' || c == '\r'
    ||| c == ' ' || c == '\u{85}' || c == '\u{A0}' || c == '\u{1680}'
    ||| c == '\u{2000}' || c == '\u{2001}' || c == '\u{2002}' || c == '\u{2003}'
    ||| c == '\u{2004}' || c == '\u{2005}' || c == '\u{2006}' || c == '\u{2007}'
    ||| c == '\u{2008}' || c == '\u{2009}' || c == '\u{200A}'
    ||| c == '\u{2028}' || c == '\u{2029}' || c == '\u{202F}' || c == '\u{205F}'
    ||| c == '\u{3000}'
}

/// Every character of `w` is white space.
pub open spec fn all_white_space(w: Seq<char>) -> bool {
    forall|k: int| 0 <= k < w.len() ==> is_unicode_white_space(#[trigger] w[k])
}

proof fn lemma_white_space_is_trimmed(c: char)
    requires
        is_unicode_white_space(c),
    ensures
        is_ws(c),
{
}

proof fn lemma_trim_start_prefix(w: Seq<char>, s: Seq<char>)
    requires
        all_white_space(w),
    ensures
        trim_start(w + s) == trim_start(s),
    decreases w.len(),
{
    if w.len() == 0 {
        assert(w + s =~= s);
    } else {
        lemma_white_space_is_trimmed(w[0]);
        assert((w + s)[0] == w[0]);
        assert((w + s).drop_first() =~= w.drop_first() + s);
        assert(all_white_space(w.drop_first())) by {
            assert forall|k: int| 0 <= k < w.drop_first().len() implies is_unicode_white_space(
                #[trigger] w.drop_first()[k],
            ) by {
                assert(w.drop_first()[k] == w[k + 1]);
            }
        }
        lemma_trim_start_prefix(w.drop_first(), s);
    }
}

proof fn lemma_trim_start_suffix(s: Seq<char>, w: Seq<char>)
    requires
        all_white_space(w),
    ensures
        trim_start(s).len() > 0 ==> trim_start(s + w) == trim_start(s) + w,
        trim_start(s).len() == 0 ==> trim_start(s + w).len() == 0,
    decreases s.len(),
{
    if s.len() == 0 {
        assert(s + w =~= w);
        lemma_trim_start_prefix(w, Seq::<char>::empty());
        assert(w + Seq::<char>::empty() =~= w);
    } else if is_ws(s[0]) {
        assert((s + w)[0] == s[0]);
        assert((s + w).drop_first() =~= s.drop_first() + w);
        lemma_trim_start_suffix(s.drop_first(), w);
    } else {
        assert((s + w)[0] == s[0]);
    }
}

proof fn lemma_trim_end_suffix(x: Seq<char>, w: Seq<char>)
    requires
        all_white_space(w),
    ensures
        trim_end(x + w) == trim_end(x),
    decreases w.len(),
{
    if w.len() == 0 {
        assert(x + w =~= x);
    } else {
        let f = w.drop_last();
        lemma_white_space_is_trimmed(w.last());
        assert((x + w).last() == w.last());
        assert((x + w).drop_last() =~= x + f);
        assert(all_white_space(f)) by {
            assert forall|k: int| 0 <= k < f.len() implies is_unicode_white_space(#[trigger] f[k]) by {
                assert(f[k] == w[k]);
            }
        }
        lemma_trim_end_suffix(x, f);
    }
}

/// Indentation and trailing white space do not matter: trimming a line
/// with white space (tabs included) added before or after it gives the
/// trimmed line.
pub proof fn law_white_space_is_trimmed(w: Seq<char>, s: Seq<char>)
    requires
        all_white_space(w),
    ensures
        trim(w + s) == trim(s),
        trim(s + w) == trim(s),
{
    lemma_trim_start_prefix(w, s);
    lemma_trim_start_suffix(s, w);
    if trim_start(s).len() > 0 {
        lemma_trim_end_suffix(trim_start(s), w);
    } else {
        assert(trim_start(s + w) =~= Seq::<char>::empty());
        assert(trim_start(s) =~= Seq::<char>::empty());
    }
}

/// Two sources whose lines agree once trimmed.
pub open spec fn same_trimmed_lines(l1: Seq<Seq<char>>, l2: Seq<Seq<char>>) -> bool {
    &&& l1.len() == l2.len()
    &&& forall|j: int| 0 <= j < l1.len() ==> trim(#[trigger] l1[j]) == trim(l2[j])
}

proof fn lemma_same_line(l1: Seq<Seq<char>>, l2: Seq<Seq<char>>, j: int)
    requires
        same_trimmed_lines(l1, l2),
        0 <= j < l1.len(),
    ensures
        knot_header_name(l1[j]) == knot_header_name(l2[j]),
        line_stmt_at(l1, j) == line_stmt_at(l2, j),
        line_diag_at(l1, j) == line_diag_at(l2, j),
{
    assert(trim(l1[j]) == trim(l2[j]));
}

proof fn lemma_same_between(l1: Seq<Seq<char>>, l2: Seq<Seq<char>>, a: int, b: int)
    requires
        same_trimmed_lines(l1, l2),
        0 <= a,
        b <= l1.len(),
    ensures
        stmts_between(l1, a, b) == stmts_between(l2, a, b),
        diags_between(l1, a, b) == diags_between(l2, a, b),
    decreases b - a,
{
    if b > a {
        lemma_same_between(l1, l2, a, b - 1);
        lemma_same_line(l1, l2, b - 1);
    }
}

proof fn lemma_same_knot_end(l1: Seq<Seq<char>>, l2: Seq<Seq<char>>, j: int)
    requires
        same_trimmed_lines(l1, l2),
        0 <= j,
    ensures
        knot_end(l1, j) == knot_end(l2, j),
    decreases l1.len() - j,
{
    if j < l1.len() {
        lemma_same_line(l1, l2, j);
        lemma_same_knot_end(l1, l2, j + 1);
    }
}

proof fn lemma_same_knots(l1: Seq<Seq<char>>, l2: Seq<Seq<char>>, h: int)
    requires
        same_trimmed_lines(l1, l2),
    ensures
        knots_from(l1, h) == knots_from(l2, h),
    decreases l1.len() - h,
{
    if 0 <= h < l1.len() {
        lemma_same_knot_end(l1, l2, h + 1);
        let next = knot_end(l1, h + 1);
        crate::parser::lemma_knot_end_bounds(l1, h + 1);
        lemma_same_line(l1, l2, h);
        lemma_same_between(l1, l2, h + 1, next);
        assert(knot_at(l1, h) == knot_at(l2, h));
        if next > h && next <= l1.len() {
            lemma_same_knots(l1, l2, next);
        }
    }
}

/// Lines that agree once trimmed parse alike. In particular indenting a
/// line with white space (a tab-indented `-> END` is a divert to `END`),
/// or adding white space after it, changes neither the statements, nor
/// the knots, nor the diagnostics.
pub proof fn law_indentation_is_ignored(ls: Seq<Seq<char>>, i: int, w: Seq<char>)
    requires
        0 <= i < ls.len(),
        all_white_space(w),
    ensures
        ({
            let ls2 = ls.update(i, w + ls[i]);
            let h = knot_end(ls, 0);
            &&& line_stmt_at(ls2, i) == line_stmt_at(ls, i)
            &&& knot_end(ls2, 0) == h
            &&& stmts_between(ls2, 0, h) == stmts_between(ls, 0, h)
            &&& knots_from(ls2, h) == knots_from(ls, h)
            &&& diags_between(ls2, 0, ls.len() as int) == diags_between(ls, 0, ls.len() as int)
        }),
{
    let ls2 = ls.update(i, w + ls[i]);
    law_white_space_is_trimmed(w, ls[i]);
    assert(same_trimmed_lines(ls, ls2)) by {
        assert forall|j: int| 0 <= j < ls.len() implies trim(#[trigger] ls[j]) == trim(ls2[j]) by {
            if j != i {
                assert(ls2[j] == ls[j]);
            }
        }
    }
    lemma_same_line(ls, ls2, i);
    lemma_same_knot_end(ls, ls2, 0);
    crate::parser::lemma_knot_end_bounds(ls, 0);
    lemma_same_between(ls, ls2, 0, knot_end(ls, 0));
    lemma_same_between(ls, ls2, 0, ls.len() as int);
    lemma_same_knots(ls, ls2, knot_end(ls, 0));
}

/// How the loader reads single JSON values: `"\n"` is a line break, a
/// string `"^t"` is the text `t`, any other string is a command; `null`
/// and booleans stand for themselves, and an integer that fits in an `i64`
/// is that integer.
pub proof fn law_loaded_values(t: Seq<char>, b: bool, i: i64)
    ensures
        spec_parse_node(jstr("\n"@)) == Ok::<SpecNode, Seq<char>>(SpecNode::Newline),
        spec_parse_node(jstr(seq!['^'] + t)) == Ok::<SpecNode, Seq<char>>(SpecNode::Str(t)),
        t != "\n"@ && !(t.len() > 0 && t[0] == '^') ==> spec_parse_node(jstr(t)) == Ok::<
            SpecNode,
            Seq<char>,
        >(SpecNode::Command(t)),
        spec_parse_node(JsonModel::Null) == Ok::<SpecNode, Seq<char>>(SpecNode::Null),
        spec_parse_node(JsonModel::Bool(b)) == Ok::<SpecNode, Seq<char>>(SpecNode::Bool(b)),
        spec_parse_node(i64_number(i)) == Ok::<SpecNode, Seq<char>>(SpecNode::Int(i)),
{
    reveal_strlit("\n");
    let s = seq!['^'] + t;
    assert(s[0] == '^');
    assert(s != "\n"@);
    assert(s.drop_first() =~= t);
}

/// A divert to `END` or `DONE`, in any mix of upper and lower case, ends
/// the story (`"end"`) or the section (`"done"`).
pub proof fn law_end_and_done_in_any_case(target: Seq<char>, line: usize)
    ensures
        target.len() == 3 && (target[0] == 'e' || target[0] == 'E') && (target[1] == 'n'
            || target[1] == 'N') && (target[2] == 'd' || target[2] == 'D') ==> stmt_json(
            SpecStmt::Divert { target, line },
        ) == seq![jstr("end"@)],
        target.len() == 4 && (target[0] == 'd' || target[0] == 'D') && (target[1] == 'o'
            || target[1] == 'O') && (target[2] == 'n' || target[2] == 'N') && (target[3] == 'e'
            || target[3] == 'E') ==> stmt_json(SpecStmt::Divert { target, line }) == seq![
            jstr("done"@),
        ],
{
    reveal_strlit("END");
    reveal_strlit("DONE");
    let u = ascii_upper(target);
    if target.len() == 3 && (target[0] == 'e' || target[0] == 'E') && (target[1] == 'n'
        || target[1] == 'N') && (target[2] == 'd' || target[2] == 'D') {
        assert(u =~= "END"@);
    }
    if target.len() == 4 && (target[0] == 'd' || target[0] == 'D') && (target[1] == 'o'
        || target[1] == 'O') && (target[2] == 'n' || target[2] == 'N') && (target[3] == 'e'
        || target[3] == 'E') {
        assert(u =~= "DONE"@);
        assert(u != "END"@);
    }
}

} // verus!
