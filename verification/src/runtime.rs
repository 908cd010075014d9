//! A minimal story runtime: the root content is flattened into one
//! sequence of nodes, which is read line by line.
use vstd::prelude::*;
use vstd::string::*;

use crate::text::str_eq;
use crate::model::{
    Container, InkDoc, RuntimeNode, SpecContainer, SpecNode, container_view, node_view, nodes_view,
    text_fragment,
};

verus! {

/// The nodes of a sequence with every container replaced by its own
/// (flattened) content; named content is dropped.
pub open spec fn flatten(nodes: Seq<SpecNode>) -> Seq<SpecNode>
    decreases nodes,
{
    if nodes.len() == 0 {
        seq![]
    } else {
        let last = nodes[nodes.len() - 1];
        flatten(nodes.subrange(0, nodes.len() - 1)) + match last {
            SpecNode::Container(c) => flatten(c.content),
            _ => seq![last],
        }
    }
}

/// The warning that reading a node gives: for a command other than `done`,
/// `end` and `nop`, for a JSON node kept as text, and for a container.
pub open spec fn node_warning(n: SpecNode) -> Option<Seq<char>> {
    match n {
        SpecNode::Command(cmd) => if cmd == "done"@ || cmd == "end"@ || cmd == "nop"@ {
            None
        } else {
            Some("unimplemented command token encountered: "@ + cmd)
        },
        SpecNode::UnknownJson(raw) => Some("unimplemented runtime json node encountered: "@ + raw),
        SpecNode::Container(_) => Some(
            "unexpected nested container at runtime (should be flattened)"@,
        ),
        _ => None,
    }
}

/// A text fragment is a line break.
pub open spec fn ends_line(n: SpecNode) -> bool {
    text_fragment(n) == Some("\n"@)
}

/// The position after the line that starts at `i`: after its first line
/// break, or the end of the content.
pub open spec fn line_end(c: Seq<SpecNode>, i: int) -> int
    decreases c.len() - i,
{
    if i >= c.len() {
        i
    } else if ends_line(c[i]) {
        i + 1
    } else {
        line_end(c, i + 1)
    }
}

/// The text of the nodes in `[a, b)`.
pub open spec fn text_between(c: Seq<SpecNode>, a: int, b: int) -> Seq<char>
    decreases b - a,
{
    if b <= a {
        seq![]
    } else {
        text_between(c, a, b - 1) + match text_fragment(c[b - 1]) {
            Some(t) => t,
            None => seq![],
        }
    }
}

/// The warnings of the nodes in `[a, b)`.
pub open spec fn warnings_between(c: Seq<SpecNode>, a: int, b: int) -> Seq<Seq<char>>
    decreases b - a,
{
    if b <= a {
        seq![]
    } else {
        warnings_between(c, a, b - 1) + match node_warning(c[b - 1]) {
            Some(w) => seq![w],
            None => seq![],
        }
    }
}

/// The start of the last line that reading from `i` to the end reads.
pub open spec fn last_line_start(c: Seq<SpecNode>, i: int) -> int
    decreases c.len() - i,
{
    if i >= c.len() || line_end(c, i) >= c.len() || line_end(c, i) <= i {
        i
    } else {
        last_line_start(c, line_end(c, i))
    }
}

/// The lines that reading from `i` to the end gives, one by one.
pub open spec fn lines_from(c: Seq<SpecNode>, i: int) -> Seq<Seq<char>>
    decreases c.len() - i,
{
    if i >= c.len() || line_end(c, i) <= i {
        seq![]
    } else {
        proof {
            lemma_line_end_bounds(c, i);
        }
        seq![text_between(c, i, line_end(c, i))] + lines_from(c, line_end(c, i))
    }
}

/// The texts of a sequence of strings.
pub open spec fn strings_view(v: Seq<String>) -> Seq<Seq<char>> {
    v.map_values(|s: String| s@)
}

/// A story being read.
#[derive(Debug)]
pub struct Story {
    content: Vec<RuntimeNode>,
    cursor: usize,
    pub current_text: String,
    warnings: Vec<String>,
}

pub proof fn lemma_nodes_view(s: Seq<RuntimeNode>)
    ensures
        nodes_view(s).len() == s.len(),
        forall|i: int| 0 <= i < s.len() ==> #[trigger] nodes_view(s)[i] == node_view(s[i]),
    decreases s.len(),
{
    if s.len() > 0 {
        lemma_nodes_view(s.subrange(0, s.len() - 1));
    }
}

proof fn lemma_nodes_view_push(s: Seq<RuntimeNode>, x: RuntimeNode)
    ensures
        nodes_view(s.push(x)) == nodes_view(s).push(node_view(x)),
{
    assert(s.push(x).subrange(0, s.len() as int) =~= s);
}

pub proof fn lemma_line_end_bounds(c: Seq<SpecNode>, i: int)
    ensures
        i <= line_end(c, i),
        i < c.len() ==> i < line_end(c, i) <= c.len(),
        line_end(c, i) < c.len() ==> ends_line(c[line_end(c, i) - 1]),
    decreases c.len() - i,
{
    if i < c.len() && !ends_line(c[i]) {
        lemma_line_end_bounds(c, i + 1);
    }
}

pub proof fn lemma_text_concat(c: Seq<SpecNode>, a: int, b: int, d: int)
    requires
        a <= b <= d,
    ensures
        text_between(c, a, b) + text_between(c, b, d) == text_between(c, a, d),
    decreases d - b,
{
    if d > b {
        lemma_text_concat(c, a, b, d - 1);
        assert(text_between(c, a, b) + text_between(c, b, d) =~= text_between(c, a, b)
            + text_between(c, b, d - 1) + match text_fragment(c[d - 1]) {
            Some(t) => t,
            None => seq![],
        });
    } else {
        assert(text_between(c, a, b) + text_between(c, b, d) =~= text_between(c, a, b));
    }
}

pub proof fn lemma_warnings_concat(c: Seq<SpecNode>, a: int, b: int, d: int)
    requires
        a <= b <= d,
    ensures
        warnings_between(c, a, b) + warnings_between(c, b, d) == warnings_between(c, a, d),
    decreases d - b,
{
    if d > b {
        lemma_warnings_concat(c, a, b, d - 1);
        assert(warnings_between(c, a, b) + warnings_between(c, b, d) =~= warnings_between(c, a, b)
            + warnings_between(c, b, d - 1) + match node_warning(c[d - 1]) {
            Some(w) => seq![w],
            None => seq![],
        });
    } else {
        assert(warnings_between(c, a, b) + warnings_between(c, b, d) =~= warnings_between(
            c,
            a,
            b,
        ));
    }
}

/// Appends the flattened nodes to `out`.
fn flatten_content(input: Vec<RuntimeNode>, out: &mut Vec<RuntimeNode>)
    ensures
        nodes_view(final(out)@) == nodes_view(old(out)@) + flatten(nodes_view(input@)),
    decreases input,
{
    let ghost all = input@;
    let mut nodes = input;
    let mut rest: Vec<RuntimeNode> = Vec::new();
    // Take the nodes off the back, then replay them in order.
    let ghost orig = nodes@;
    assert(rest@.reverse() =~= Seq::<RuntimeNode>::empty());
    assert(nodes@ + rest@.reverse() =~= orig);
    while nodes.len() > 0
        invariant
            nodes@ + rest@.reverse() == orig,
        decreases nodes@.len(),
    {
        let ghost before_nodes = nodes@;
        let ghost before_rest = rest@;
        let x = nodes.pop().unwrap();
        rest.push(x);
        assert(rest@.reverse() =~= seq![x] + before_rest.reverse());
        assert(nodes@ + rest@.reverse() =~= before_nodes.subrange(0, before_nodes.len() - 1)
            + seq![x] + before_rest.reverse());
        assert(before_nodes =~= before_nodes.subrange(0, before_nodes.len() - 1).push(x));
    }
    assert(rest@.reverse() =~= orig);
    let ghost start = out@;
    let mut k: usize = 0;
    let n = rest.len();
    proof {
        lemma_nodes_view(orig);
        assert(orig.subrange(0, 0) =~= Seq::<RuntimeNode>::empty());
        assert(nodes_view(orig.subrange(0, 0)) =~= Seq::<SpecNode>::empty());
        assert(nodes_view(out@) =~= nodes_view(start) + flatten(nodes_view(orig.subrange(0, 0))));
        assert(rest@.reverse().len() == rest@.len());
        assert(rest@.len() == orig.len());
        assert(orig.subrange(0, n as int) =~= orig);
        assert(all == input@);
    }
    while rest.len() > 0
        invariant
            k + rest@.len() == n == orig.len(),
            rest@.reverse() == orig.subrange(k as int, n as int),
            nodes_view(out@) == nodes_view(start) + flatten(nodes_view(orig.subrange(0, k as int))),
            orig == all,
            all == input@,
        decreases rest@.len(),
    {
        let ghost before_rest = rest@;
        let x = rest.pop().unwrap();
        assert(x == orig[k as int]) by {
            assert(before_rest.reverse()[0] == before_rest[before_rest.len() - 1]);
        }
        assert(rest@.reverse() =~= orig.subrange(k + 1, n as int)) by {
            assert(before_rest =~= rest@.push(x));
            assert(rest@.push(x).reverse() =~= seq![x] + rest@.reverse());
            assert(orig.subrange(k + 1, n as int) =~= orig.subrange(k as int, n as int).drop_first());
        }
        let ghost mid = out@;
        proof {
            lemma_nodes_view(orig.subrange(0, k + 1));
            lemma_nodes_view(orig.subrange(0, k as int));
            assert(nodes_view(orig.subrange(0, k + 1)).subrange(0, k as int) =~= nodes_view(
                orig.subrange(0, k as int),
            ));
            assert(nodes_view(orig.subrange(0, k + 1))[k as int] == node_view(x));
        }
        match x {
            RuntimeNode::Container(c) => {
                proof {
                    assert(decreases_to!(input => input@));
                    assert(decreases_to!(input@ => input@[k as int]));
                    assert(input@[k as int] == RuntimeNode::Container(c));
                    assert(decreases_to!(input@[k as int] => input@[k as int]->Container_0));
                    assert(decreases_to!(c => c.content));
                }
                let ghost inner = c.content@;
                flatten_content(c.content, out);
                proof {
                    assert(node_view(x) == SpecNode::Container(container_view(c)));
                    assert(container_view(c).content == nodes_view(inner));
                }
            },
            other => {
                out.push(other);
                proof {
                    lemma_nodes_view_push(mid, other);
                }
            },
        }
        k = k + 1;
    }
    assert(orig.subrange(0, n as int) =~= orig);
}

impl Story {
    /// The views of the content nodes.
    pub closed spec fn nodes(&self) -> Seq<SpecNode> {
        nodes_view(self.content@)
    }

    /// The position of the next node to read.
    pub closed spec fn pos(&self) -> int {
        self.cursor as int
    }

    /// The text of the last line read: that of the field `current_text`,
    /// which `current_text()` also gives.
    pub closed spec fn current(&self) -> Seq<char> {
        self.current_text@
    }

    /// The position stays within the content: every story that `from_doc`
    /// makes is well formed, and every method keeps it so.
    pub open spec fn wf(&self) -> bool {
        self.pos() <= self.nodes().len()
    }

    /// The warnings collected so far.
    pub closed spec fn warning_texts(&self) -> Seq<Seq<char>> {
        strings_view(self.warnings@)
    }

    /// The text of the last line read, as the field `current_text` holds
    /// it. (The private fields make `Story` opaque to proofs outside this
    /// module, so contracts speak of `current()`.)
    pub fn current_text(&self) -> (r: &String)
        ensures
            r@ == self.current(),
    {
        &self.current_text
    }

    /// A story at the start of the document's flattened root content, with
    /// no text and no warnings.
    pub fn from_doc(doc: InkDoc) -> (s: Self)
        ensures
            s.nodes() == flatten(container_view(doc.root).content),
            s.pos() == 0,
            s.wf(),
            s.current() == Seq::<char>::empty(),
            s.warning_texts() == Seq::<Seq<char>>::empty(),
    {
        let mut flattened: Vec<RuntimeNode> = Vec::new();
        assert(nodes_view(flattened@) =~= Seq::<SpecNode>::empty());
        flatten_content(doc.root.content, &mut flattened);
        let s = Story {
            content: flattened,
            cursor: 0,
            current_text: String::new(),
            warnings: Vec::new(),
        };
        assert(strings_view(s.warnings@) =~= Seq::<Seq<char>>::empty());
        s
    }

    /// There are nodes left to read.
    pub fn can_continue(&self) -> (r: bool)
        ensures
            r == (self.pos() < self.nodes().len()),
    {
        proof {
            lemma_nodes_view(self.content@);
        }
        self.cursor < self.content.len()
    }

    /// Reads one line: the text of the nodes up to and including the first
    /// line break (or to the end), with a warning for each node that this
    /// runtime does not implement.
    pub fn continue_line(&mut self) -> (r: String)
        requires
            old(self).wf(),
        ensures
            final(self).wf(),
            final(self).nodes() == old(self).nodes(),
            final(self).pos() == line_end(old(self).nodes(), old(self).pos()),
            r@ == text_between(old(self).nodes(), old(self).pos(), final(self).pos()),
            final(self).current() == r@,
            final(self).warning_texts() == old(self).warning_texts() + warnings_between(
                old(self).nodes(),
                old(self).pos(),
                final(self).pos(),
            ),
    {
        let ghost c = self.nodes();
        let ghost s = self.pos();
        proof {
            lemma_nodes_view(self.content@);
            lemma_line_end_bounds(c, s);
        }
        self.current_text = String::new();
        let mut done = false;
        assert(text_between(c, s, s) =~= Seq::<char>::empty());
        assert(warnings_between(c, s, s) =~= Seq::<Seq<char>>::empty());
        assert(strings_view(self.warnings@) =~= strings_view(old(self).warnings@)
            + warnings_between(c, s, s));
        while self.cursor < self.content.len() && !done
            invariant
                self.content == old(self).content,
                c == nodes_view(self.content@),
                c.len() == self.content@.len(),
                forall|j: int| 0 <= j < c.len() ==> #[trigger] c[j] == node_view(self.content@[j]),
                s <= self.cursor,
                s < c.len() ==> self.cursor <= c.len(),
                s >= c.len() ==> self.cursor == s,
                done ==> self.cursor == line_end(c, s),
                !done ==> line_end(c, self.cursor as int) == line_end(c, s),
                self.current_text@ == text_between(c, s, self.cursor as int),
                strings_view(self.warnings@) == strings_view(old(self).warnings@)
                    + warnings_between(c, s, self.cursor as int),
            decreases c.len() - self.cursor, if done { 0int } else { 1int },
        {
            let i = self.cursor;
            let ghost before_text = self.current_text@;
            let ghost before_warnings = self.warnings@;
            assert(c[i as int] == node_view(self.content@[i as int]));
            self.cursor = self.cursor + 1;
            let node = &self.content[i];
            if let Some(fragment) = node.as_text_fragment() {
                self.current_text.append(fragment);
                if str_eq(fragment, "\n") {
                    done = true;
                }
            } else {
                match node {
                    RuntimeNode::Command(cmd) => {
                        if !(str_eq(cmd.as_str(), "done") || str_eq(cmd.as_str(), "end") || str_eq(
                            cmd.as_str(),
                            "nop",
                        )) {
                            let mut w = String::from_str("unimplemented command token encountered: ");
                            w.append(cmd.as_str());
                            self.warnings.push(w);
                        }
                    },
                    RuntimeNode::UnknownJson(raw) => {
                        let mut w = String::from_str("unimplemented runtime json node encountered: ");
                        w.append(raw.as_str());
                        self.warnings.push(w);
                    },
                    RuntimeNode::Container(_) => {
                        self.warnings.push(
                            String::from_str(
                                "unexpected nested container at runtime (should be flattened)",
                            ),
                        );
                    },
                    _ => {},
                }
            }
            assert(self.current_text@ =~= text_between(c, s, self.cursor as int));
            assert(strings_view(self.warnings@) =~= strings_view(before_warnings) + match node_warning(
                c[i as int],
            ) {
                Some(w) => seq![w],
                None => seq![],
            });
            assert(strings_view(self.warnings@) =~= strings_view(old(self).warnings@)
                + warnings_between(c, s, self.cursor as int));
        }
        self.current_text.clone()
    }

    /// Reads every remaining line; gives their text, in order.
    pub fn continue_maximally(&mut self) -> (r: String)
        requires
            old(self).wf(),
        ensures
            final(self).wf(),
            final(self).nodes() == old(self).nodes(),
            final(self).pos() == old(self).nodes().len(),
            r@ == text_between(old(self).nodes(), old(self).pos(), old(self).nodes().len() as int),
            old(self).pos() < old(self).nodes().len() ==> final(self).current() == text_between(
                old(self).nodes(),
                last_line_start(old(self).nodes(), old(self).pos()),
                old(self).nodes().len() as int,
            ),
            old(self).pos() >= old(self).nodes().len() ==> final(self).current()
                == old(self).current(),
            final(self).warning_texts() == old(self).warning_texts() + warnings_between(
                old(self).nodes(),
                old(self).pos(),
                old(self).nodes().len() as int,
            ),
    {
        let ghost c = self.nodes();
        let ghost s = self.pos();
        let ghost n = c.len() as int;
        proof {
            lemma_nodes_view(self.content@);
        }
        let mut out = String::new();
        let mut stop = false;
        assert(text_between(c, s, s) =~= Seq::<char>::empty());
        assert(warnings_between(c, s, s) =~= Seq::<Seq<char>>::empty());
        assert(self.warning_texts() =~= old(self).warning_texts() + warnings_between(c, s, s));
        while self.can_continue() && !stop
            invariant
                self.wf(),
                self.nodes() == c,
                n == c.len(),
                s <= self.pos(),
                s < n ==> self.pos() <= n,
                s >= n ==> self.pos() == s && self.current_text == old(self).current_text,
                stop ==> self.pos() >= n,
                out@ == text_between(c, s, self.pos()),
                self.warning_texts() == old(self).warning_texts() + warnings_between(c, s, self.pos()),
                s < n && self.pos() < n ==> last_line_start(c, s) == last_line_start(c, self.pos()),
                s < n && self.pos() == n ==> self.current_text@ == text_between(
                    c,
                    last_line_start(c, s),
                    n,
                ),
            decreases n - self.pos(), if stop { 0int } else { 1int },
        {
            let ghost p = self.pos();
            proof {
                lemma_line_end_bounds(c, p);
            }
            let line = self.continue_line();
            let ghost q = self.pos();
            proof {
                lemma_text_concat(c, s, p, q);
                lemma_warnings_concat(c, s, p, q);
            }
            if line.as_str().unicode_len() == 0 && !self.can_continue() {
                stop = true;
            }
            out.append(line.as_str());
        }
        out
    }

    /// Hands out the warnings collected so far, and forgets them.
    pub fn take_warnings(&mut self) -> (r: Vec<String>)
        requires
            old(self).wf(),
        ensures
            final(self).wf(),
            strings_view(r@) == old(self).warning_texts(),
            final(self).warning_texts() == Seq::<Seq<char>>::empty(),
            final(self).nodes() == old(self).nodes(),
            final(self).pos() == old(self).pos(),
            final(self).current() == old(self).current(),
    {
        let mut taken: Vec<String> = Vec::new();
        std::mem::swap(&mut taken, &mut self.warnings);
        assert(strings_view(self.warnings@) =~= Seq::<Seq<char>>::empty());
        taken
    }
}

} // verus!
