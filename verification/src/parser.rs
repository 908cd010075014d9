//! The line-oriented ink parser: what each source line means, and a cursor
//! based parser proved to compute it.
use vstd::prelude::*;
use vstd::string::*;

use crate::ast::{AstKnot, AstStmt, AstStory, SpecKnot, SpecStmt, SpecStory, knot_views, opt_seq, stmt_views};
use crate::diagnostic::{
    Diagnostic, SpecDiagnostic, diag_views, parse_error_diag, unimplemented_diag,
};
use crate::text::{
    chars_of, decimal, decimal_chars, lines_of, newline_index, starts_with, starts_with_str, strip_cr,
    string_from_chars, sub_chars, trim, trimmed,
};

verus! {

// ---------------------------------------------------------------------------
// What a source text means
// ---------------------------------------------------------------------------

/// The characters `->`.
pub open spec fn arrow() -> Seq<char> {
    seq!['-', '>']
}

/// The characters `->->`.
pub open spec fn tunnel() -> Seq<char> {
    seq!['-', '>', '-', '>']
}

/// The characters `//`.
pub open spec fn comment_start() -> Seq<char> {
    seq!['/', '/']
}

/// The characters `==`.
pub open spec fn double_equals() -> Seq<char> {
    seq!['=', '=']
}

/// Number of `=` at the start of `t`.
pub open spec fn leading_eq(t: Seq<char>) -> nat
    decreases t.len(),
{
    if t.len() > 0 && t[0] == '=' {
        1 + leading_eq(t.drop_first())
    } else {
        0
    }
}

/// Number of `=` at the end of `t`.
pub open spec fn trailing_eq(t: Seq<char>) -> nat
    decreases t.len(),
{
    if t.len() > 0 && t.last() == '=' {
        1 + trailing_eq(t.drop_last())
    } else {
        0
    }
}

/// The name of a knot header line (`== name ==`, at least two `=` on each
/// side), or `None` when the line is no knot header.
pub open spec fn knot_header_name(raw: Seq<char>) -> Option<Seq<char>> {
    let t = trim(raw);
    let a = leading_eq(t);
    let b = trailing_eq(t);
    if a < 2 || b < 2 {
        None
    } else {
        Some(trim(t.subrange(a as int, t.len() - b)))
    }
}

/// A line whose `=` runs at both ends overlap (a line of two or more `=` and
/// nothing else): the header's name cannot be cut out of it.
pub open spec fn header_runs_overlap(raw: Seq<char>) -> bool {
    let t = trim(raw);
    leading_eq(t) >= 2 && trailing_eq(t) >= 2 && leading_eq(t) + trailing_eq(t) > t.len()
}

/// Every line of the source can be read as a knot header or as no header.
pub open spec fn source_is_parsable(src: Seq<char>) -> bool {
    forall|i: int| 0 <= i < lines_of(src).len() ==> !header_runs_overlap(#[trigger] lines_of(src)[i])
}

/// Lines that start with a keyword, `==`, or one of `~ * + - { } < =` are
/// constructs other than plain text.
pub open spec fn looks_like_non_text(t: Seq<char>) -> bool {
    ||| starts_with(t, "VAR "@)
    ||| starts_with(t, "CONST "@)
    ||| starts_with(t, "LIST "@)
    ||| starts_with(t, "EXTERNAL "@)
    ||| starts_with(t, "INCLUDE "@)
    ||| starts_with(t, double_equals())
    ||| (t.len() > 0 && (t[0] == '~' || t[0] == '*' || t[0] == '+' || t[0] == '-' || t[0]
        == '{' || t[0] == '}' || t[0] == '<' || t[0] == '='))
}

/// `t` without any number of leading `->`.
pub open spec fn strip_arrows(t: Seq<char>) -> Seq<char>
    decreases t.len(),
{
    if starts_with(t, arrow()) {
        strip_arrows(t.skip(2))
    } else {
        t
    }
}

/// Message for a tunnel onwards line.
pub open spec fn tunnel_message() -> Seq<char> {
    "tunnel onwards (`->->`) is not implemented in rust compiler phase-2 scaffold"@
}

/// Message for a divert without a target.
pub open spec fn empty_target_message() -> Seq<char> {
    "empty divert target is not allowed"@
}

/// Message for a knot header without a name.
pub open spec fn empty_knot_name_message() -> Seq<char> {
    "knot name cannot be empty"@
}

/// Message for a line of unsupported syntax.
pub open spec fn unsupported_message(t: Seq<char>) -> Seq<char> {
    "unsupported ink syntax in phase-2 scaffold: `"@ + t + "`"@
}

/// The statement and the diagnostic that a non-header line gives, from its
/// trimmed text `t` and its line number `ln`.
pub open spec fn line_meaning(t: Seq<char>, ln: usize) -> (Option<SpecStmt>, Option<SpecDiagnostic>) {
    if t.len() == 0 {
        (None, None)
    } else if starts_with(t, arrow()) {
        if starts_with(t, tunnel()) {
            (
                Some(SpecStmt::Unsupported { raw: t, line: ln }),
                Some(unimplemented_diag(ln, tunnel_message())),
            )
        } else {
            let target = trim(strip_arrows(t));
            if target.len() == 0 {
                (
                    Some(SpecStmt::Unsupported { raw: t, line: ln }),
                    Some(parse_error_diag(ln, empty_target_message())),
                )
            } else {
                (Some(SpecStmt::Divert { target, line: ln }), None)
            }
        }
    } else if !looks_like_non_text(t) {
        (Some(SpecStmt::Text { text: t, line: ln }), None)
    } else if starts_with(t, comment_start()) {
        (None, None)
    } else {
        (
            Some(SpecStmt::Unsupported { raw: t, line: ln }),
            Some(unimplemented_diag(ln, unsupported_message(t))),
        )
    }
}

/// Line number of the line at index `i`.
pub open spec fn line_no(i: int) -> usize {
    (i + 1) as usize
}

/// Name given to a knot whose header at index `h` has the name `name`.
pub open spec fn knot_name_for(name: Seq<char>, h: int) -> Seq<char> {
    if name.len() == 0 {
        "invalid_knot_"@ + decimal((h + 1) as nat)
    } else {
        name
    }
}

/// Statement of the line at index `i` (none for empty and header lines).
pub open spec fn line_stmt_at(ls: Seq<Seq<char>>, i: int) -> Option<SpecStmt> {
    if knot_header_name(ls[i]) is Some {
        None
    } else {
        line_meaning(trim(ls[i]), line_no(i)).0
    }
}

/// Diagnostic of the line at index `i`, if any.
pub open spec fn line_diag_at(ls: Seq<Seq<char>>, i: int) -> Option<SpecDiagnostic> {
    match knot_header_name(ls[i]) {
        Some(name) => if name.len() == 0 {
            Some(parse_error_diag(line_no(i), empty_knot_name_message()))
        } else {
            None
        },
        None => line_meaning(trim(ls[i]), line_no(i)).1,
    }
}

/// Statements of the lines with index in `[a, b)`.
pub open spec fn stmts_between(ls: Seq<Seq<char>>, a: int, b: int) -> Seq<SpecStmt>
    decreases b - a,
{
    if b <= a {
        seq![]
    } else {
        stmts_between(ls, a, b - 1) + opt_seq(line_stmt_at(ls, b - 1))
    }
}

/// Diagnostics of the lines with index in `[a, b)`, in line order.
pub open spec fn diags_between(ls: Seq<Seq<char>>, a: int, b: int) -> Seq<SpecDiagnostic>
    decreases b - a,
{
    if b <= a {
        seq![]
    } else {
        diags_between(ls, a, b - 1) + opt_seq(line_diag_at(ls, b - 1))
    }
}

/// Index of the first knot header at or after `j`, or the number of lines.
pub open spec fn knot_end(ls: Seq<Seq<char>>, j: int) -> int
    decreases ls.len() - j,
{
    if j >= ls.len() {
        ls.len() as int
    } else if knot_header_name(ls[j]) is Some {
        j
    } else {
        knot_end(ls, j + 1)
    }
}

/// The knot whose header is the line at index `h`.
pub open spec fn knot_at(ls: Seq<Seq<char>>, h: int) -> SpecKnot {
    SpecKnot {
        name: knot_name_for(knot_header_name(ls[h]).unwrap(), h),
        body: stmts_between(ls, h + 1, knot_end(ls, h + 1)),
        line: line_no(h),
    }
}

/// The knots whose headers are at index `h` or later, `h` being a header
/// (or the end).
pub open spec fn knots_from(ls: Seq<Seq<char>>, h: int) -> Seq<SpecKnot>
    decreases ls.len() - h,
{
    if h < 0 || h >= ls.len() {
        seq![]
    } else {
        let next = knot_end(ls, h + 1);
        if next <= h || next > ls.len() {
            seq![]
        } else {
            seq![knot_at(ls, h)] + knots_from(ls, next)
        }
    }
}

/// The story that a source text parses to.
pub open spec fn spec_story(src: Seq<char>) -> SpecStory {
    let ls = lines_of(src);
    let h0 = knot_end(ls, 0);
    SpecStory { root: stmts_between(ls, 0, h0), knots: knots_from(ls, h0) }
}

/// The diagnostics of a source text, in line order.
pub open spec fn spec_diagnostics(src: Seq<char>) -> Seq<SpecDiagnostic> {
    let ls = lines_of(src);
    diags_between(ls, 0, ls.len() as int)
}

// ---------------------------------------------------------------------------
// Lemmas
// ---------------------------------------------------------------------------

pub proof fn lemma_knot_end_bounds(ls: Seq<Seq<char>>, j: int)
    requires
        0 <= j,
    ensures
        j <= ls.len() ==> j <= knot_end(ls, j) <= ls.len(),
        knot_end(ls, j) < ls.len() ==> knot_header_name(ls[knot_end(ls, j)]) is Some,
        knot_end(ls, knot_end(ls, j)) == knot_end(ls, j),
    decreases ls.len() - j,
{
    if j < ls.len() && knot_header_name(ls[j]) is None {
        lemma_knot_end_bounds(ls, j + 1);
    }
}

pub proof fn lemma_diags_concat(ls: Seq<Seq<char>>, a: int, b: int, c: int)
    requires
        a <= b <= c,
    ensures
        diags_between(ls, a, b) + diags_between(ls, b, c) == diags_between(ls, a, c),
    decreases c - b,
{
    if c > b {
        lemma_diags_concat(ls, a, b, c - 1);
        assert(diags_between(ls, a, b) + diags_between(ls, b, c) =~= diags_between(ls, a, b)
            + diags_between(ls, b, c - 1) + opt_seq(line_diag_at(ls, c - 1)));
    } else {
        assert(diags_between(ls, a, b) + diags_between(ls, b, c) =~= diags_between(ls, a, b));
    }
}

proof fn lemma_leading_eq_step(t: Seq<char>, i: int)
    requires
        0 <= i < t.len(),
        t[i] == '=',
    ensures
        leading_eq(t.skip(i)) == 1 + leading_eq(t.skip(i + 1)),
{
    assert(t.skip(i).drop_first() =~= t.skip(i + 1));
}

proof fn lemma_trailing_eq_step(t: Seq<char>, j: int)
    requires
        0 < j <= t.len(),
        t[j - 1] == '=',
    ensures
        trailing_eq(t.take(j)) == 1 + trailing_eq(t.take(j - 1)),
{
    assert(t.take(j).drop_last() =~= t.take(j - 1));
}

proof fn lemma_strip_arrows_step(t: Seq<char>, i: int)
    requires
        0 <= i,
        i + 2 <= t.len(),
        t[i] == '-',
        t[i + 1] == '>',
    ensures
        strip_arrows(t.skip(i)) == strip_arrows(t.skip(i + 2)),
{
    assert(t.skip(i).take(2) =~= arrow());
    assert(t.skip(i).skip(2) =~= t.skip(i + 2));
}

proof fn lemma_newline_index(u: Seq<char>, m: int)
    requires
        0 <= m <= u.len(),
        forall|k: int| 0 <= k < m ==> u[k] != '\n',
        m == u.len() || u[m] == '\n',
    ensures
        newline_index(u) == m,
    decreases m,
{
    if m > 0 {
        lemma_newline_index(u.drop_first(), m - 1);
    }
}

// ---------------------------------------------------------------------------
// Character-level parsing functions
// ---------------------------------------------------------------------------

/// `t` begins with the two characters `a b`.
fn starts_with_pair(t: &Vec<char>, a: char, b: char) -> (r: bool)
    ensures
        r == starts_with(t@, seq![a, b]),
{
    if t.len() >= 2 && t[0] == a && t[1] == b {
        assert(t@.take(2) =~= seq![a, b]);
        true
    } else {
        proof {
            if t@.len() >= 2 && t@.take(2) == seq![a, b] {
                assert(t@.take(2)[0] == a && t@.take(2)[1] == b);
            }
        }
        false
    }
}

/// The numbers of `=` at the start and at the end of `t`.
fn equals_runs(t: &Vec<char>) -> (r: (usize, usize))
    ensures
        r.0 == leading_eq(t@),
        r.1 == trailing_eq(t@),
        r.0 <= t@.len(),
        r.1 <= t@.len(),
{
    let n = t.len();
    let mut a: usize = 0;
    assert(t@.skip(0) =~= t@);
    while a < n && t[a] == '='
        invariant
            a <= n == t@.len(),
            leading_eq(t@) == a + leading_eq(t@.skip(a as int)),
        decreases n - a,
    {
        proof {
            lemma_leading_eq_step(t@, a as int);
        }
        a = a + 1;
    }
    assert(leading_eq(t@.skip(a as int)) == 0);
    let mut b: usize = 0;
    assert(t@.take(n as int) =~= t@);
    while b < n && t[n - 1 - b] == '='
        invariant
            b <= n == t@.len(),
            trailing_eq(t@) == b + trailing_eq(t@.take(n - b)),
        decreases n - b,
    {
        proof {
            lemma_trailing_eq_step(t@, n - b);
        }
        b = b + 1;
    }
    assert(trailing_eq(t@.take(n - b)) == 0);
    (a, b)
}

/// The name of a knot header line, or `None` when the line is no header.
pub fn parse_knot_header_name(raw_line: &Vec<char>) -> (r: Option<Vec<char>>)
    requires
        !header_runs_overlap(raw_line@),
    ensures
        match r {
            Some(n) => knot_header_name(raw_line@) == Some(n@),
            None => knot_header_name(raw_line@) is None,
        },
{
    let t = trimmed(raw_line);
    let n = t.len();
    let (a, b) = equals_runs(&t);
    if a < 2 || b < 2 {
        return None;
    }
    let inner = sub_chars(&t, a, n - b);
    Some(trimmed(&inner))
}

/// The line's `=` runs at both ends overlap, so that no knot name can be
/// cut out of it.
pub fn header_runs_overlap_in(raw_line: &Vec<char>) -> (r: bool)
    ensures
        r == header_runs_overlap(raw_line@),
{
    let t = trimmed(raw_line);
    let (a, b) = equals_runs(&t);
    a >= 2 && b >= 2 && a > t.len() - b
}

/// Every line of the source can be read as a knot header or as no header
/// (the condition under which `compile_ink` may be called).
pub fn is_parsable_source(raw: &str) -> (r: bool)
    ensures
        r == source_is_parsable(raw@),
{
    let cursor = LineCursor::new(raw);
    let mut i: usize = 0;
    while i < cursor.lines.len()
        invariant
            i <= cursor.lines@.len(),
            cursor.spec_lines() == lines_of(raw@),
            forall|k: int| 0 <= k < i ==> !header_runs_overlap(#[trigger] lines_of(raw@)[k]),
        decreases cursor.lines@.len() - i,
    {
        assert(cursor.spec_lines()[i as int] == cursor.lines@[i as int].raw@);
        if header_runs_overlap_in(&cursor.lines[i].raw) {
            return false;
        }
        i = i + 1;
    }
    true
}

/// Whether a trimmed line is some construct other than plain text.
pub fn looks_like_non_text_construct(t: &Vec<char>) -> (r: bool)
    ensures
        r == looks_like_non_text(t@),
{
    if starts_with_str(t, "VAR ") || starts_with_str(t, "CONST ") || starts_with_str(t, "LIST ")
        || starts_with_str(t, "EXTERNAL ") || starts_with_str(t, "INCLUDE ") {
        return true;
    }
    if starts_with_pair(t, '=', '=') {
        return true;
    }
    if t.len() == 0 {
        return false;
    }
    let c = t[0];
    c == '~' || c == '*' || c == '+' || c == '-' || c == '{' || c == '}' || c == '<' || c == '='
}

/// The target of a divert line: `t` without its leading arrows, trimmed.
fn divert_target(t: &Vec<char>) -> (r: Vec<char>)
    ensures
        r@ == trim(strip_arrows(t@)),
{
    let n = t.len();
    let mut i: usize = 0;
    assert(t@.skip(0) =~= t@);
    while n - i >= 2 && t[i] == '-' && t[i + 1] == '>'
        invariant
            i <= n == t@.len(),
            strip_arrows(t@) == strip_arrows(t@.skip(i as int)),
        decreases n - i,
    {
        proof {
            lemma_strip_arrows_step(t@, i as int);
        }
        i = i + 2;
    }
    let rest = sub_chars(t, i, n);
    assert(rest@ =~= t@.skip(i as int));
    proof {
        if starts_with(rest@, arrow()) {
            assert(rest@.take(2)[0] == '-' && rest@.take(2)[1] == '>');
        }
    }
    assert(strip_arrows(rest@) == rest@);
    trimmed(&rest)
}

// ---------------------------------------------------------------------------
// The cursor over source lines
// ---------------------------------------------------------------------------

/// One source line and its 1-based number.
#[derive(Debug, Clone)]
pub struct SourceLine {
    pub raw: Vec<char>,
    pub line: usize,
}

/// A position in the source, to return to.
pub type Checkpoint = usize;

/// The lines of a source and the index of the next line to read.
#[derive(Debug)]
pub struct LineCursor {
    pub lines: Vec<SourceLine>,
    pub index: usize,
}

/// The raw texts of a sequence of source lines.
pub open spec fn raw_lines(v: Seq<SourceLine>) -> Seq<Seq<char>> {
    v.map_values(|l: SourceLine| l.raw@)
}

impl LineCursor {
    /// The raw texts of the lines.
    pub open spec fn spec_lines(&self) -> Seq<Seq<char>> {
        raw_lines(self.lines@)
    }

    /// Line numbers count from one, and the index stays within the lines.
    pub open spec fn wf(&self) -> bool {
        &&& self.index <= self.lines@.len()
        &&& forall|k: int| 0 <= k < self.lines@.len() ==> #[trigger] self.lines@[k].line == k + 1
    }

    /// Splits a source into its lines, at the first line.
    pub fn new(raw: &str) -> (c: Self)
        ensures
            c.wf(),
            c.index == 0,
            c.spec_lines() == lines_of(raw@),
    {
        let cs = chars_of(raw);
        let n = cs.len();
        let mut lines: Vec<SourceLine> = Vec::new();
        let mut start: usize = 0;
        assert(cs@.skip(0) =~= cs@);
        assert(raw_lines(lines@) + lines_of(cs@.skip(0)) =~= lines_of(cs@));
        while start < n
            invariant
                start <= n == cs@.len(),
                cs@ == raw@,
                lines@.len() <= start,
                raw_lines(lines@) + lines_of(cs@.skip(start as int)) == lines_of(cs@),
                forall|k: int| 0 <= k < lines@.len() ==> #[trigger] lines@[k].line == k + 1,
            decreases n - start,
        {
            let mut j: usize = start;
            while j < n && cs[j] != '\n'
                invariant
                    start <= j <= n == cs@.len(),
                    forall|k: int| start <= k < j ==> cs@[k] != '\n',
                decreases n - j,
            {
                j = j + 1;
            }
            let ghost u = cs@.skip(start as int);
            proof {
                lemma_newline_index(u, j - start);
            }
            let end = if j < n && j > start && cs[j - 1] == '\r' {
                j - 1
            } else {
                j
            };
            let piece = sub_chars(&cs, start, end);
            let ghost old_lines = lines@;
            let ln = lines.len() + 1;
            lines.push(SourceLine { raw: piece, line: ln });
            assert(raw_lines(lines@) =~= raw_lines(old_lines).push(piece@));
            if j < n {
                assert(strip_cr(u.take(j - start)) =~= piece@);
                assert(u.skip(j - start + 1) =~= cs@.skip(j + 1));
                start = j + 1;
            } else {
                assert(u =~= piece@);
                assert(cs@.skip(n as int) =~= Seq::<char>::empty());
                start = n;
            }
            assert(raw_lines(lines@) + lines_of(cs@.skip(start as int)) =~= lines_of(cs@));
        }
        assert(cs@.skip(n as int) =~= Seq::<char>::empty());
        assert(raw_lines(lines@) =~= lines_of(cs@));
        LineCursor { lines, index: 0 }
    }

    pub fn checkpoint(&self) -> (c: Checkpoint)
        ensures
            c == self.index,
    {
        self.index
    }

    pub fn rollback(&mut self, checkpoint: Checkpoint)
        ensures
            final(self).lines == old(self).lines,
            final(self).index == checkpoint,
    {
        self.index = checkpoint;
    }

    /// Keeps the lines read since the checkpoint (nothing to undo).
    pub fn commit(&mut self, _checkpoint: Checkpoint)
        ensures
            *final(self) == *old(self),
    {
    }

    /// The next line, without reading it.
    pub fn peek(&self) -> (r: Option<&SourceLine>)
        ensures
            self.index < self.lines@.len() ==> r == Some(&self.lines@[self.index as int]),
            self.index >= self.lines@.len() ==> r is None,
    {
        if self.index < self.lines.len() {
            Some(&self.lines[self.index])
        } else {
            None
        }
    }

    /// Reads the next line.
    pub fn advance(&mut self) -> (r: Option<SourceLine>)
        ensures
            final(self).lines == old(self).lines,
            old(self).index < old(self).lines@.len() ==> (final(self).index == old(self).index + 1
                && (r matches Some(l) && l.raw@ == old(self).lines@[old(self).index as int].raw@
                && l.line == old(self).lines@[old(self).index as int].line)),
            old(self).index >= old(self).lines@.len() ==> final(self).index == old(self).index
                && r is None,
    {
        if self.index < self.lines.len() {
            let line = SourceLine {
                raw: self.lines[self.index].raw.clone(),
                line: self.lines[self.index].line,
            };
            self.index = self.index + 1;
            Some(line)
        } else {
            None
        }
    }

    pub fn is_eof(&self) -> (r: bool)
        ensures
            r == (self.index >= self.lines@.len()),
    {
        self.index >= self.lines.len()
    }
}


// ---------------------------------------------------------------------------
// The parser
// ---------------------------------------------------------------------------

/// The parser: a cursor over the source lines and the diagnostics so far.
#[derive(Debug)]
pub struct Parser {
    pub cursor: LineCursor,
    pub diagnostics: Vec<Diagnostic>,
}

/// A knot header line that was read: the knot's name and line number.
#[derive(Debug)]
pub struct KnotHeader {
    pub name: String,
    pub line: usize,
}

impl Parser {
    /// The raw texts of the source lines.
    pub open spec fn ls(&self) -> Seq<Seq<char>> {
        self.cursor.spec_lines()
    }

    /// Index of the next line.
    pub open spec fn idx(&self) -> int {
        self.cursor.index as int
    }

    /// The views of the diagnostics so far.
    pub open spec fn diags(&self) -> Seq<SpecDiagnostic> {
        diag_views(self.diagnostics@)
    }

    /// The cursor is well formed.
    pub open spec fn wf(&self) -> bool {
        self.cursor.wf()
    }

    /// Every line can be read as a knot header or as no header.
    pub open spec fn headers_readable(&self) -> bool {
        forall|k: int| 0 <= k < self.ls().len() ==> !header_runs_overlap(#[trigger] self.ls()[k])
    }

    /// The trimmed text of the next line, if there is one.
    pub open spec fn cur_trim(&self) -> Seq<char> {
        trim(self.ls()[self.idx()])
    }

    /// A parser at the first line of `raw`.
    pub fn new(raw: &str) -> (p: Self)
        ensures
            p.cursor.wf(),
            p.idx() == 0,
            p.ls() == lines_of(raw@),
            p.diagnostics@.len() == 0,
    {
        Parser { cursor: LineCursor::new(raw), diagnostics: Vec::new() }
    }

    /// The trimmed text of the next line, if there is one.
    pub fn current_line_trimmed(&self) -> (r: Option<Vec<char>>)
        requires
            self.wf(),
        ensures
            self.idx() < self.ls().len() ==> (r matches Some(t) && t@ == self.cur_trim()),
            self.idx() >= self.ls().len() ==> r is None,
    {
        match self.cursor.peek() {
            Some(line) => Some(trimmed(&line.raw)),
            None => None,
        }
    }

    /// The next line is a knot header.
    pub fn next_line_looks_like_knot_header(&self) -> (r: bool)
        requires
            self.wf(),
            self.headers_readable(),
        ensures
            r == (self.idx() < self.ls().len() && knot_header_name(self.ls()[self.idx()]) is Some),
    {
        match self.cursor.peek() {
            Some(line) => {
                assert(!header_runs_overlap(self.ls()[self.idx()]));
                parse_knot_header_name(&line.raw).is_some()
            },
            None => false,
        }
    }

    /// Reads a knot header line; on an empty name, reports it and names
    /// the knot after its line.
    pub fn parse_knot_header_line(&mut self) -> (r: Option<KnotHeader>)
        requires
            old(self).wf(),
            old(self).headers_readable(),
        ensures
            final(self).wf(),
            final(self).cursor.lines == old(self).cursor.lines,
            ({
                let ls = old(self).ls();
                let i = old(self).idx();
                if i < ls.len() && knot_header_name(ls[i]) is Some {
                    &&& final(self).idx() == i + 1
                    &&& r matches Some(h)
                    &&& h.name@ == knot_name_for(knot_header_name(ls[i]).unwrap(), i)
                    &&& h.line == line_no(i)
                    &&& final(self).diags() == old(self).diags() + opt_seq(line_diag_at(ls, i))
                } else {
                    &&& r is None
                    &&& final(self).idx() == i
                    &&& final(self).diagnostics == old(self).diagnostics
                }
            }),
    {
        let ghost ls = self.ls();
        let ghost i = self.idx();
        let line = match self.cursor.peek() {
            Some(line) => line,
            None => return None,
        };
        assert(!header_runs_overlap(ls[i]));
        let ln = line.line;
        let name = match parse_knot_header_name(&line.raw) {
            Some(n) => n,
            None => return None,
        };
        self.cursor.advance();
        if name.len() == 0 {
            let msg = String::from_str("knot name cannot be empty");
            let ghost before = self.diagnostics@;
            self.diagnostics.push(Diagnostic::parse_error(ln, msg));
            assert(diag_views(self.diagnostics@) =~= diag_views(before).push(
                parse_error_diag(line_no(i), empty_knot_name_message()),
            ));
            let mut full = String::from_str("invalid_knot_");
            let digits = string_from_chars(&decimal_chars(ln));
            full.append(digits.as_str());
            return Some(KnotHeader { name: full, line: ln });
        }
        assert(self.diags() =~= old(self).diags() + opt_seq(line_diag_at(ls, i)));
        Some(KnotHeader { name: string_from_chars(&name), line: ln })
    }

    /// Reads a divert line (`-> target`), if the next line is one.
    pub fn parse_divert_line(&mut self) -> (r: Option<AstStmt>)
        requires
            old(self).wf(),
        ensures
            final(self).wf(),
            final(self).cursor.lines == old(self).cursor.lines,
            ({
                let i = old(self).idx();
                if i < old(self).ls().len() && starts_with(old(self).cur_trim(), arrow()) {
                    let m = line_meaning(old(self).cur_trim(), line_no(i));
                    &&& final(self).idx() == i + 1
                    &&& r matches Some(st) && Some(st@) == m.0
                    &&& final(self).diags() == old(self).diags() + opt_seq(m.1)
                } else {
                    &&& r is None
                    &&& final(self).idx() == i
                    &&& final(self).diagnostics == old(self).diagnostics
                }
            }),
    {
        let ghost i = self.idx();
        let line = match self.cursor.peek() {
            Some(line) => line,
            None => return None,
        };
        let ln = line.line;
        let t = trimmed(&line.raw);
        if !starts_with_pair(&t, '-', '>') {
            return None;
        }
        self.cursor.advance();
        let ghost before = self.diagnostics@;
        if t.len() >= 4 && t[2] == '-' && t[3] == '>' {
            assert(t@.take(4) =~= tunnel());
            let msg = String::from_str(
                "tunnel onwards (`->->`) is not implemented in rust compiler phase-2 scaffold",
            );
            self.diagnostics.push(Diagnostic::unimplemented(ln, msg));
            assert(diag_views(self.diagnostics@) =~= diag_views(before).push(
                unimplemented_diag(line_no(i), tunnel_message()),
            ));
            return Some(AstStmt::Unsupported { raw: string_from_chars(&t), line: ln });
        }
        proof {
            if starts_with(t@, tunnel()) {
                assert(t@.take(4)[2] == '-' && t@.take(4)[3] == '>');
            }
        }
        let target = divert_target(&t);
        if target.len() == 0 {
            let msg = String::from_str("empty divert target is not allowed");
            self.diagnostics.push(Diagnostic::parse_error(ln, msg));
            assert(diag_views(self.diagnostics@) =~= diag_views(before).push(
                parse_error_diag(line_no(i), empty_target_message()),
            ));
            return Some(AstStmt::Unsupported { raw: string_from_chars(&t), line: ln });
        }
        assert(self.diags() =~= old(self).diags() + opt_seq(
            line_meaning(old(self).cur_trim(), line_no(i)).1,
        ));
        Some(AstStmt::Divert { target: string_from_chars(&target), line: ln })
    }

    /// Reads a line of plain text, if the next line is one.
    pub fn parse_text_line(&mut self) -> (r: Option<AstStmt>)
        requires
            old(self).wf(),
        ensures
            final(self).wf(),
            final(self).cursor.lines == old(self).cursor.lines,
            final(self).diagnostics == old(self).diagnostics,
            ({
                let i = old(self).idx();
                let t = old(self).cur_trim();
                if i < old(self).ls().len() && t.len() > 0 && !looks_like_non_text(t) {
                    &&& final(self).idx() == i + 1
                    &&& r matches Some(st) && st@ == SpecStmt::Text { text: t, line: line_no(i) }
                } else {
                    &&& r is None
                    &&& final(self).idx() == i
                }
            }),
    {
        let line = match self.cursor.peek() {
            Some(line) => line,
            None => return None,
        };
        let ln = line.line;
        let t = trimmed(&line.raw);
        if t.len() == 0 || looks_like_non_text_construct(&t) {
            return None;
        }
        self.cursor.advance();
        Some(AstStmt::Text { text: string_from_chars(&t), line: ln })
    }

    /// Reads a line that is neither a divert nor plain text: a comment
    /// gives nothing, anything else an unsupported statement and a warning.
    pub fn parse_unsupported_line(&mut self) -> (r: Option<AstStmt>)
        requires
            old(self).wf(),
        ensures
            final(self).wf(),
            final(self).cursor.lines == old(self).cursor.lines,
            ({
                let i = old(self).idx();
                let t = old(self).cur_trim();
                if i >= old(self).ls().len() {
                    &&& r is None
                    &&& final(self).idx() == i
                    &&& final(self).diagnostics == old(self).diagnostics
                } else if starts_with(t, comment_start()) {
                    &&& r is None
                    &&& final(self).idx() == i + 1
                    &&& final(self).diagnostics == old(self).diagnostics
                } else {
                    &&& final(self).idx() == i + 1
                    &&& r matches Some(st) && st@ == SpecStmt::Unsupported { raw: t, line: line_no(i) }
                    &&& final(self).diags() == old(self).diags().push(
                        unimplemented_diag(line_no(i), unsupported_message(t)),
                    )
                }
            }),
    {
        let ghost i = self.idx();
        let line = match self.cursor.advance() {
            Some(line) => line,
            None => return None,
        };
        let t = trimmed(&line.raw);
        if starts_with_pair(&t, '/', '/') {
            return None;
        }
        let ts = string_from_chars(&t);
        let mut msg = String::from_str("unsupported ink syntax in phase-2 scaffold: `");
        msg.append(ts.as_str());
        msg.append("`");
        let ghost before = self.diagnostics@;
        self.diagnostics.push(Diagnostic::unimplemented(line.line, msg));
        assert(diag_views(self.diagnostics@) =~= diag_views(before).push(
            unimplemented_diag(line_no(i), unsupported_message(t@)),
        ));
        Some(AstStmt::Unsupported { raw: string_from_chars(&t), line: line.line })
    }

    /// Reads one line that is not a knot header: a divert, plain text, a
    /// comment or unsupported syntax; an empty line gives nothing.
    pub fn parse_line_stmt(&mut self) -> (r: Option<AstStmt>)
        requires
            old(self).wf(),
        ensures
            final(self).wf(),
            final(self).cursor.lines == old(self).cursor.lines,
            ({
                let ls = old(self).ls();
                let i = old(self).idx();
                let m = line_meaning(trim(ls[i]), line_no(i));
                if i < ls.len() {
                    &&& final(self).idx() == i + 1
                    &&& match r {
                        Some(st) => m.0 == Some(st@),
                        None => m.0 is None,
                    }
                    &&& final(self).diags() == old(self).diags() + opt_seq(m.1)
                } else {
                    &&& r is None
                    &&& final(self).idx() == i
                    &&& final(self).diagnostics == old(self).diagnostics
                }
            }),
    {
        if self.cursor.is_eof() {
            return None;
        }
        let ghost ls = self.ls();
        let ghost i = self.idx();
        let ghost t = self.cur_trim();
        let cur = self.current_line_trimmed();
        let is_empty = match &cur {
            Some(c) => c.len() == 0,
            None => false,
        };
        if is_empty {
            self.cursor.advance();
            assert(self.diags() =~= old(self).diags() + opt_seq(
                line_meaning(trim(ls[i]), line_no(i)).1,
            ));
            return None;
        }
        let cp = self.cursor.checkpoint();
        if let Some(stmt) = self.parse_divert_line() {
            self.cursor.commit(cp);
            return Some(stmt);
        }
        self.cursor.rollback(cp);
        let cp = self.cursor.checkpoint();
        if let Some(stmt) = self.parse_text_line() {
            self.cursor.commit(cp);
            assert(self.diags() =~= old(self).diags() + opt_seq(
                line_meaning(trim(ls[i]), line_no(i)).1,
            ));
            return Some(stmt);
        }
        self.cursor.rollback(cp);
        proof {
            if t.len() > 0 && starts_with(t, arrow()) {
                assert(false);
            }
            if t.len() > 0 && !looks_like_non_text(t) {
                assert(false);
            }
            assert(t.len() > 0);
        }
        let r = self.parse_unsupported_line();
        assert(self.diags() =~= old(self).diags() + opt_seq(
            line_meaning(trim(ls[i]), line_no(i)).1,
        ));
        r
    }

    /// Reads a knot: its header line and every line up to the next header
    /// or the end.
    pub fn parse_knot_block(&mut self) -> (r: Option<AstKnot>)
        requires
            old(self).wf(),
            old(self).headers_readable(),
        ensures
            final(self).wf(),
            final(self).cursor.lines == old(self).cursor.lines,
            ({
                let ls = old(self).ls();
                let h = old(self).idx();
                if h < ls.len() && knot_header_name(ls[h]) is Some {
                    &&& final(self).idx() == knot_end(ls, h + 1)
                    &&& r matches Some(k) && k@ == knot_at(ls, h)
                    &&& final(self).diags() == old(self).diags() + diags_between(
                        ls,
                        h,
                        knot_end(ls, h + 1),
                    )
                } else {
                    &&& r is None
                    &&& final(self).idx() == h
                    &&& final(self).diagnostics == old(self).diagnostics
                }
            }),
    {
        let ghost ls = self.ls();
        let ghost h = self.idx();
        let cp = self.cursor.checkpoint();
        let header = match self.parse_knot_header_line() {
            Some(header) => header,
            None => {
                self.cursor.rollback(cp);
                return None;
            },
        };
        let ghost e = knot_end(ls, h + 1);
        proof {
            lemma_knot_end_bounds(ls, h + 1);
            assert(diags_between(ls, h, h) =~= Seq::<SpecDiagnostic>::empty());
            assert(diags_between(ls, h, h + 1) =~= opt_seq(line_diag_at(ls, h)));
            assert(stmts_between(ls, h + 1, h + 1) =~= Seq::<SpecStmt>::empty());
        }
        let mut body: Vec<AstStmt> = Vec::new();
        assert(stmt_views(body@) =~= Seq::<SpecStmt>::empty());
        while !self.cursor.is_eof() && !self.next_line_looks_like_knot_header()
            invariant
                self.wf(),
                self.headers_readable(),
                self.ls() == ls,
                self.cursor.lines == old(self).cursor.lines,
                h + 1 <= self.idx() <= e,
                e == knot_end(ls, h + 1),
                knot_end(ls, self.idx()) == e,
                e <= ls.len(),
                stmt_views(body@) == stmts_between(ls, h + 1, self.idx()),
                self.diags() == old(self).diags() + diags_between(ls, h, self.idx()),
            decreases ls.len() - self.idx(),
        {
            let ghost i = self.idx();
            proof {
                lemma_knot_end_bounds(ls, i + 1);
            }
            let cur = self.current_line_trimmed();
            let is_empty = match &cur {
                Some(c) => c.len() == 0,
                None => false,
            };
            let ghost before_body = body@;
            let ghost before_diags = self.diags();
            if is_empty {
                self.cursor.advance();
            } else {
                if let Some(stmt) = self.parse_line_stmt() {
                    body.push(stmt);
                }
            }
            assert(stmt_views(body@) =~= stmt_views(before_body) + opt_seq(line_stmt_at(ls, i)));
            assert(self.diags() =~= before_diags + opt_seq(line_diag_at(ls, i)));
            assert(old(self).diags() + diags_between(ls, h, i + 1) =~= old(self).diags()
                + diags_between(ls, h, i) + opt_seq(line_diag_at(ls, i)));
        }
        let knot = AstKnot { name: header.name, body, line: header.line };
        Some(knot)
    }

    /// Parses the rest of the source, from the next line on: the statements
    /// before the next knot, then the knots. Gives them with every
    /// diagnostic collected so far (those of the lines read here in line
    /// order), and leaves the parser at the end with no diagnostics.
    pub fn parse_story(&mut self) -> (r: (AstStory, Vec<Diagnostic>))
        requires
            old(self).wf(),
            old(self).headers_readable(),
        ensures
            final(self).wf(),
            final(self).cursor.lines == old(self).cursor.lines,
            final(self).idx() == old(self).ls().len(),
            final(self).diagnostics@.len() == 0,
            ({
                let ls = old(self).ls();
                let s = old(self).idx();
                let h0 = knot_end(ls, s);
                &&& r.0@ == SpecStory { root: stmts_between(ls, s, h0), knots: knots_from(ls, h0) }
                &&& diag_views(r.1@) == old(self).diags() + diags_between(ls, s, ls.len() as int)
            }),
    {
        let ghost ls = self.ls();
        let ghost n = ls.len() as int;
        let ghost s0 = self.idx();
        let ghost d0 = self.diags();
        let ghost h0 = knot_end(ls, s0);
        proof {
            lemma_knot_end_bounds(ls, s0);
            assert(diags_between(ls, s0, s0) =~= Seq::<SpecDiagnostic>::empty());
            assert(stmts_between(ls, s0, s0) =~= Seq::<SpecStmt>::empty());
            assert(self.diags() =~= d0 + diags_between(ls, s0, s0));
        }
        let mut root: Vec<AstStmt> = Vec::new();
        let mut knots: Vec<AstKnot> = Vec::new();
        assert(stmt_views(root@) =~= Seq::<SpecStmt>::empty());
        assert(knot_views(knots@) =~= Seq::<SpecKnot>::empty());
        while !self.cursor.is_eof()
            invariant
                self.wf(),
                self.headers_readable(),
                self.ls() == ls,
                n == ls.len(),
                0 <= s0 <= h0 <= n,
                h0 == knot_end(ls, s0),
                s0 <= self.idx() <= n,
                self.cursor.lines == old(self).cursor.lines,
                self.diags() == d0 + diags_between(ls, s0, self.idx()),
                (self.idx() <= h0 && knot_end(ls, self.idx()) == h0 && stmt_views(root@)
                    == stmts_between(ls, s0, self.idx()) && knot_views(knots@).len() == 0) || (h0
                    <= self.idx() && knot_end(ls, self.idx()) == self.idx() && stmt_views(root@)
                    == stmts_between(ls, s0, h0) && knot_views(knots@) + knots_from(ls, self.idx())
                    == knots_from(ls, h0)),
            decreases n - self.idx(),
        {
            let ghost i = self.idx();
            let ghost before_root = root@;
            let ghost before_knots = knots@;
            proof {
                lemma_knot_end_bounds(ls, i);
                lemma_knot_end_bounds(ls, i + 1);
            }
            let cur = self.current_line_trimmed();
            let is_empty = match &cur {
                Some(c) => c.len() == 0,
                None => false,
            };
            if is_empty {
                self.cursor.advance();
                assert(self.diags() =~= d0 + diags_between(ls, s0, i + 1));
                assert(stmt_views(root@) =~= stmts_between(ls, s0, i + 1));
                proof {
                    if knot_header_name(ls[i]) is Some {
                        assert(trim(ls[i]).len() >= 2);
                    }
                }
                continue;
            }
            if let Some(knot) = self.parse_knot_block() {
                knots.push(knot);
                proof {
                    let nx = knot_end(ls, i + 1);
                    lemma_knot_end_bounds(ls, i + 1);
                    lemma_diags_concat(ls, s0, i, nx);
                    assert(d0 + diags_between(ls, s0, i) + diags_between(ls, i, nx) =~= d0
                        + diags_between(ls, s0, nx));
                    assert(knot_views(knots@) =~= knot_views(before_knots).push(knot_at(ls, i)));
                    assert(knots_from(ls, i) =~= seq![knot_at(ls, i)] + knots_from(ls, nx));
                    assert(knot_views(knots@) + knots_from(ls, nx) =~= knot_views(before_knots)
                        + knots_from(ls, i));
                }
                continue;
            }
            if let Some(stmt) = self.parse_line_stmt() {
                root.push(stmt);
            }
            assert(stmt_views(root@) =~= stmt_views(before_root) + opt_seq(line_stmt_at(ls, i)));
            assert(self.diags() =~= d0 + diags_between(ls, s0, i + 1));
        }
        let mut diagnostics: Vec<Diagnostic> = Vec::new();
        std::mem::swap(&mut diagnostics, &mut self.diagnostics);
        proof {
            assert(self.idx() == n);
            assert(knots_from(ls, n) =~= Seq::<SpecKnot>::empty());
            if n <= h0 {
                assert(h0 == n);
                assert(knot_views(knots@) =~= knots_from(ls, h0));
            } else {
                assert(knot_views(knots@) =~= knot_views(knots@) + knots_from(ls, n));
                assert(knot_views(knots@) =~= knots_from(ls, h0));
            }
            assert(stmt_views(root@) =~= stmts_between(ls, s0, h0));
            assert(diag_views(diagnostics@) =~= d0 + diags_between(ls, s0, n));
        }
        (AstStory { root, knots }, diagnostics)
    }
}

} // verus!
