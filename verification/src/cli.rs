//! What the command line tool reports: issue lines and protocol events.
use vstd::prelude::*;
use vstd::string::*;

use crate::diagnostic::{Diagnostic, DiagnosticSeverity};
use crate::protocol::CliEvent;
use crate::runtime::{Story, line_end, lines_from, text_between, warnings_between};
use crate::text::{decimal, decimal_chars, string_from_chars};

verus! {

/// The name of a severity.
pub open spec fn severity_name(s: DiagnosticSeverity) -> Seq<char> {
    match s {
        DiagnosticSeverity::Warning => "Warning"@,
        DiagnosticSeverity::Error => "Error"@,
    }
}

/// The issue line of a diagnostic: `Severity: line:column message (CODE)`.
pub open spec fn issue_text(d: Diagnostic) -> Seq<char> {
    severity_name(d.severity) + ": "@ + decimal(d.line as nat) + ":"@ + decimal(d.column as nat)
        + " "@ + d.message@ + " ("@ + d.code@ + ")"@
}

/// The warning about the visit-counting option.
pub open spec fn count_all_visits_warning() -> Seq<char> {
    "WARNING: -c/--count-all-visits is accepted but not implemented in rust compiler backend"@
}

/// The warning about the keep-open option.
pub open spec fn keep_open_warning() -> Seq<char> {
    "WARNING: -k/--keep-open is accepted but interactive input loop is not implemented in rust backend"@
}

/// The texts of a sequence of strings.
pub open spec fn texts(v: Seq<String>) -> Seq<Seq<char>> {
    v.map_values(|s: String| s@)
}

/// The issue line of a diagnostic.
pub fn diagnostic_issue(d: &Diagnostic) -> (r: String)
    ensures
        r@ == issue_text(*d),
{
    let mut s = match d.severity {
        DiagnosticSeverity::Warning => String::from_str("Warning"),
        DiagnosticSeverity::Error => String::from_str("Error"),
    };
    s.append(": ");
    let line = string_from_chars(&decimal_chars(d.line));
    s.append(line.as_str());
    s.append(":");
    let column = string_from_chars(&decimal_chars(d.column));
    s.append(column.as_str());
    s.append(" ");
    s.append(d.message.as_str());
    s.append(" (");
    s.append(d.code);
    s.append(")");
    s
}

/// Adds the issue line of each diagnostic, in order.
pub fn push_diagnostic_issues(diagnostics: &Vec<Diagnostic>, issues: &mut Vec<String>)
    ensures
        texts(final(issues)@) == texts(old(issues)@) + diagnostics@.map_values(
            |d: Diagnostic| issue_text(d),
        ),
{
    let mut i: usize = 0;
    while i < diagnostics.len()
        invariant
            i <= diagnostics@.len(),
            texts(issues@) == texts(old(issues)@) + diagnostics@.take(i as int).map_values(
                |d: Diagnostic| issue_text(d),
            ),
        decreases diagnostics@.len() - i,
    {
        let ghost before = issues@;
        issues.push(diagnostic_issue(&diagnostics[i]));
        assert(diagnostics@.take(i + 1).map_values(|d: Diagnostic| issue_text(d))
            =~= diagnostics@.take(i as int).map_values(|d: Diagnostic| issue_text(d)).push(
            issue_text(diagnostics@[i as int]),
        ));
        assert(texts(issues@) =~= texts(before).push(issue_text(diagnostics@[i as int])));
        i = i + 1;
    }
    assert(diagnostics@.take(i as int) =~= diagnostics@);
}

/// The issues of a compilation: the visit-counting warning when that
/// option was given, then one line per diagnostic.
pub fn compile_issues(diagnostics: &Vec<Diagnostic>, count_all_visits: bool) -> (r: Vec<String>)
    ensures
        texts(r@) == (if count_all_visits {
            seq![count_all_visits_warning()]
        } else {
            seq![]
        }) + diagnostics@.map_values(|d: Diagnostic| issue_text(d)),
{
    let mut issues: Vec<String> = Vec::new();
    if count_all_visits {
        issues.push(
            String::from_str(
                "WARNING: -c/--count-all-visits is accepted but not implemented in rust compiler backend",
            ),
        );
    }
    assert(texts(issues@) =~= (if count_all_visits {
        seq![count_all_visits_warning()]
    } else {
        seq![]
    }));
    push_diagnostic_issues(diagnostics, &mut issues);
    issues
}

/// The events of a compilation in JSON mode: success, the issues if there
/// are any, then the export.
pub fn compile_events(issues: &Vec<String>) -> (r: Vec<CliEvent>)
    ensures
        issues@.len() == 0 ==> r@.len() == 2,
        issues@.len() > 0 ==> (r@.len() == 3 && (r@[1] matches CliEvent::Issues { issues: v } && v@
            == issues@)),
        r@[0] == (CliEvent::CompileSuccess { compile_success: true }),
        r@[r@.len() - 1] == (CliEvent::ExportComplete { export_complete: true }),
{
    let mut events: Vec<CliEvent> = Vec::new();
    events.push(CliEvent::CompileSuccess { compile_success: true });
    if issues.len() > 0 {
        events.push(CliEvent::Issues { issues: issues.clone() });
    }
    events.push(CliEvent::ExportComplete { export_complete: true });
    events
}

/// Plays a story to its end. Gives the lines read, in order, and the
/// runtime warnings; adds to the issues the keep-open warning when that
/// option was given, then each runtime warning.
pub fn play_to_end(story: &mut Story, keep_open: bool, issues: &mut Vec<String>) -> (r: (
    Vec<String>,
    Vec<String>,
))
    requires
        old(story).wf(),
    ensures
        texts(r.1@) == old(story).warning_texts() + warnings_between(
            old(story).nodes(),
            old(story).pos(),
            old(story).nodes().len() as int,
        ),
        final(story).wf(),
        final(story).pos() == old(story).nodes().len(),
        final(story).nodes() == old(story).nodes(),
        final(story).warning_texts() == Seq::<Seq<char>>::empty(),
        texts(r.0@) == lines_from(old(story).nodes(), old(story).pos()),
        flatten_texts(texts(r.0@)) == text_between(
            old(story).nodes(),
            old(story).pos(),
            old(story).nodes().len() as int,
        ),
        texts(final(issues)@) == texts(old(issues)@) + (if keep_open {
            seq![keep_open_warning()]
        } else {
            seq![]
        }) + old(story).warning_texts().map_values(|w: Seq<char>| "WARNING: "@ + w)
            + warnings_between(
            old(story).nodes(),
            old(story).pos(),
            old(story).nodes().len() as int,
        ).map_values(|w: Seq<char>| "WARNING: "@ + w),
{
    let ghost c = story.nodes();
    let ghost s0 = story.pos();
    let mut lines: Vec<String> = Vec::new();
    assert(text_between(c, s0, s0) =~= Seq::<char>::empty());
    assert(flatten_texts(texts(lines@)) =~= Seq::<char>::empty());
    assert(texts(lines@) + lines_from(c, s0) =~= lines_from(c, s0));
    while story.can_continue()
        invariant
            story.wf(),
            story.nodes() == c,
            s0 <= story.pos(),
            s0 <= c.len() ==> story.pos() <= c.len(),
            s0 > c.len() ==> story.pos() == s0,
            flatten_texts(texts(lines@)) == text_between(c, s0, story.pos()),
            story.warning_texts() == old(story).warning_texts() + warnings_between(
                c,
                s0,
                story.pos(),
            ),
            texts(lines@) + lines_from(c, story.pos()) == lines_from(c, s0),
        decreases c.len() - story.pos(),
    {
        let ghost p = story.pos();
        proof {
            crate::runtime::lemma_line_end_bounds(c, p);
        }
        let line = story.continue_line();
        let ghost q = story.pos();
        proof {
            crate::runtime::lemma_text_concat(c, s0, p, q);
            crate::runtime::lemma_warnings_concat(c, s0, p, q);
        }
        let ghost before = lines@;
        lines.push(line);
        assert(texts(lines@) =~= texts(before).push(line@));
        assert(texts(lines@).drop_last() =~= texts(before));
        assert(flatten_texts(texts(lines@)) =~= flatten_texts(texts(before)) + line@);
        assert(lines_from(c, p) == seq![line@] + lines_from(c, q));
        assert(texts(lines@) + lines_from(c, q) =~= texts(before) + lines_from(c, p));
    }
    assert(lines_from(c, story.pos()) =~= Seq::<Seq<char>>::empty());
    if keep_open {
        issues.push(
            String::from_str(
                "WARNING: -k/--keep-open is accepted but interactive input loop is not implemented in rust backend",
            ),
        );
    }
    let ghost mid = issues@;
    assert(texts(mid) =~= texts(old(issues)@) + (if keep_open {
        seq![keep_open_warning()]
    } else {
        seq![]
    }));
    let warnings = story.take_warnings();
    let ghost ws = crate::runtime::strings_view(warnings@);
    let mut i: usize = 0;
    while i < warnings.len()
        invariant
            i <= warnings@.len(),
            ws == crate::runtime::strings_view(warnings@),
            texts(issues@) == texts(mid) + ws.take(i as int).map_values(
                |w: Seq<char>| "WARNING: "@ + w,
            ),
        decreases warnings@.len() - i,
    {
        let ghost before = issues@;
        let mut w = String::from_str("WARNING: ");
        w.append(warnings[i].as_str());
        issues.push(w);
        assert(ws.take(i + 1).map_values(|w: Seq<char>| "WARNING: "@ + w) =~= ws.take(
            i as int,
        ).map_values(|w: Seq<char>| "WARNING: "@ + w).push("WARNING: "@ + ws[i as int]));
        assert(texts(issues@) =~= texts(before).push(w@));
        i = i + 1;
    }
    assert(ws.take(i as int) =~= ws);
    assert(ws.map_values(|w: Seq<char>| "WARNING: "@ + w) =~= old(story).warning_texts().map_values(
        |w: Seq<char>| "WARNING: "@ + w,
    ) + warnings_between(c, s0, story.pos()).map_values(|w: Seq<char>| "WARNING: "@ + w));
    assert(texts(warnings@) == ws);
    (lines, warnings)
}

/// The texts of a sequence, one after another.
pub open spec fn flatten_texts(v: Seq<Seq<char>>) -> Seq<char>
    decreases v.len(),
{
    if v.len() == 0 {
        seq![]
    } else {
        flatten_texts(v.drop_last()) + v.last()
    }
}

/// What the command line tool does with its input.
#[derive(Debug, Clone, Copy, PartialEq, Eq, Structural)]
pub enum RunMode {
    /// Hand the whole command to the fallback backend.
    Fallback,
    /// Play a runtime JSON document.
    PlayJson,
    /// Compile ink source, then play it.
    PlayInk,
    /// Compile ink source to a runtime JSON file.
    Compile,
}

/// The message for statistics asked of a JSON input.
pub open spec fn json_stats_message() -> Seq<char> {
    "Cannot show stats for .json, only for .ink"@
}

/// What the tool does: statistics cannot be shown for a JSON input;
/// statistics or plugin directories need the fallback backend; else a JSON
/// input is played, and ink source is played in play mode and compiled
/// otherwise.
pub fn run_mode(input_is_json: bool, stats: bool, has_plugin_dirs: bool, play: bool) -> (r: Result<
    RunMode,
    String,
>)
    ensures
        input_is_json && stats ==> (r matches Err(m) && m@ == json_stats_message()),
        !(input_is_json && stats) ==> r == Ok::<RunMode, String>(
            if stats || has_plugin_dirs {
                RunMode::Fallback
            } else if input_is_json {
                RunMode::PlayJson
            } else if play {
                RunMode::PlayInk
            } else {
                RunMode::Compile
            },
        ),
{
    if input_is_json && stats {
        return Err(String::from_str("Cannot show stats for .json, only for .ink"));
    }
    if stats || has_plugin_dirs {
        Ok(RunMode::Fallback)
    } else if input_is_json {
        Ok(RunMode::PlayJson)
    } else if play {
        Ok(RunMode::PlayInk)
    } else {
        Ok(RunMode::Compile)
    }
}

/// The message with which strict mode fails after `n` issues.
pub open spec fn strict_failure_text(n: nat) -> Seq<char> {
    "strict mode failed: encountered "@ + decimal(n) + " diagnostics/warnings"@
}

/// In strict mode, any issue fails the run: gives the failure message.
pub fn strict_failure(strict: bool, issues: &Vec<String>) -> (r: Option<String>)
    ensures
        r is Some <==> strict && issues@.len() > 0,
        r matches Some(m) ==> m@ == strict_failure_text(issues@.len()),
{
    if strict && issues.len() > 0 {
        let mut m = String::from_str("strict mode failed: encountered ");
        let count = string_from_chars(&decimal_chars(issues.len()));
        m.append(count.as_str());
        m.append(" diagnostics/warnings");
        Some(m)
    } else {
        None
    }
}

/// The events of playing in JSON mode: each line read, as text, then the
/// issues if there are any.
pub fn play_events(lines: &Vec<String>, issues: &Vec<String>) -> (r: Vec<CliEvent>)
    ensures
        r@.len() == lines@.len() + if issues@.len() > 0 {
            1int
        } else {
            0int
        },
        forall|i: int|
            0 <= i < lines@.len() ==> (#[trigger] r@[i] matches CliEvent::Text { text } && text
                == lines@[i]),
        issues@.len() > 0 ==> (r@[lines@.len() as int] matches CliEvent::Issues { issues: v } && v@
            == issues@),
{
    let mut events: Vec<CliEvent> = Vec::new();
    let mut i: usize = 0;
    while i < lines.len()
        invariant
            i <= lines@.len(),
            events@.len() == i,
            forall|j: int|
                0 <= j < i ==> (#[trigger] events@[j] matches CliEvent::Text { text } && text
                    == lines@[j]),
        decreases lines@.len() - i,
    {
        events.push(CliEvent::Text { text: lines[i].clone() });
        i = i + 1;
    }
    if issues.len() > 0 {
        events.push(CliEvent::Issues { issues: issues.clone() });
    }
    events
}

/// The options that are handed on to the fallback backend.
pub struct ForwardedOptions {
    pub output_file: Option<String>,
    pub play: bool,
    pub json: bool,
    pub stats: bool,
    pub verbose: bool,
    pub count_all_visits: bool,
    pub keep_open: bool,
    pub plugin_dirs: Vec<String>,
    pub input: String,
}

/// The argument `f` when the option is on.
pub open spec fn flag_arg(on: bool, f: Seq<char>) -> Seq<Seq<char>> {
    if on {
        seq![f]
    } else {
        seq![]
    }
}

/// `-x dir` for each plugin directory, in order.
pub open spec fn plugin_args(dirs: Seq<Seq<char>>) -> Seq<Seq<char>>
    decreases dirs.len(),
{
    if dirs.len() == 0 {
        seq![]
    } else {
        plugin_args(dirs.drop_last()) + seq!["-x"@, dirs.last()]
    }
}

/// The arguments for the fallback backend: `-o file` when an output file
/// was named, then `-p`, `-j`, `-s`, `-v`, `-c`, `-k` for the options that
/// are on, then `-x dir` for each plugin directory, then the input.
pub open spec fn forwarded_args(o: ForwardedOptions) -> Seq<Seq<char>> {
    (match o.output_file {
        Some(f) => seq!["-o"@, f@],
        None => seq![],
    }) + flag_arg(o.play, "-p"@) + flag_arg(o.json, "-j"@) + flag_arg(o.stats, "-s"@) + flag_arg(
        o.verbose,
        "-v"@,
    ) + flag_arg(o.count_all_visits, "-c"@) + flag_arg(o.keep_open, "-k"@) + plugin_args(
        texts(o.plugin_dirs@),
    ) + seq![o.input@]
}

fn push_flag(args: &mut Vec<String>, on: bool, f: &str)
    ensures
        texts(final(args)@) == texts(old(args)@) + flag_arg(on, f@),
{
    if on {
        let ghost before = args@;
        args.push(String::from_str(f));
        assert(texts(args@) =~= texts(before) + flag_arg(on, f@));
    } else {
        assert(texts(args@) =~= texts(args@) + flag_arg(on, f@));
    }
}

/// The arguments for the fallback backend.
pub fn fallback_args(o: &ForwardedOptions) -> (r: Vec<String>)
    ensures
        texts(r@) == forwarded_args(*o),
{
    let mut args: Vec<String> = Vec::new();
    match &o.output_file {
        Some(f) => {
            args.push(String::from_str("-o"));
            args.push(f.clone());
        },
        None => {},
    }
    let ghost head = texts(args@);
    assert(head =~= match o.output_file {
        Some(f) => seq!["-o"@, f@],
        None => Seq::<Seq<char>>::empty(),
    });
    push_flag(&mut args, o.play, "-p");
    push_flag(&mut args, o.json, "-j");
    push_flag(&mut args, o.stats, "-s");
    push_flag(&mut args, o.verbose, "-v");
    push_flag(&mut args, o.count_all_visits, "-c");
    push_flag(&mut args, o.keep_open, "-k");
    let ghost flags = texts(args@);
    let mut i: usize = 0;
    assert(texts(o.plugin_dirs@).take(0) =~= Seq::<Seq<char>>::empty());
    assert(texts(args@) =~= flags + plugin_args(texts(o.plugin_dirs@).take(0)));
    while i < o.plugin_dirs.len()
        invariant
            i <= o.plugin_dirs@.len(),
            texts(args@) == flags + plugin_args(texts(o.plugin_dirs@).take(i as int)),
        decreases o.plugin_dirs@.len() - i,
    {
        let ghost before = args@;
        args.push(String::from_str("-x"));
        args.push(o.plugin_dirs[i].clone());
        let ghost ds = texts(o.plugin_dirs@);
        assert(ds.take(i + 1).drop_last() =~= ds.take(i as int));
        assert(ds.take(i + 1).last() == o.plugin_dirs@[i as int]@);
        assert(texts(args@) =~= texts(before) + seq!["-x"@, o.plugin_dirs@[i as int]@]);
        i = i + 1;
    }
    assert(texts(o.plugin_dirs@).take(i as int) =~= texts(o.plugin_dirs@));
    let ghost before = args@;
    args.push(o.input.clone());
    assert(texts(args@) =~= texts(before) + seq![o.input@]);
    args
}

} // verus!
