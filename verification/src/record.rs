//! A backend that records the primitive operations it consumes.  It is
//! the crate's in-memory target: tests and callers can replay or inspect
//! the exact operation sequence a widget emitted, and any two targets of
//! equal width receive the same sequence from the same widget.

use vstd::prelude::*;

use crate::{Attr, Op, Target};

verus! {

/// One recorded primitive operation, as runtime data.
#[derive(Clone, Debug, PartialEq, Eq)]
pub enum TargetOp {
    /// The current style was set.
    PushAttr(Attr),
    /// Text was emitted under the current style.
    Text(String),
    /// The current line was ended.
    Newline,
}

impl View for TargetOp {
    type V = Op;

    open spec fn view(&self) -> Op {
        match self {
            TargetOp::PushAttr(a) => Op::PushAttr(*a),
            TargetOp::Text(s) => Op::Text(s@),
            TargetOp::Newline => Op::Newline,
        }
    }
}

/// The operations a recorded vector stands for.
pub open spec fn record_ops(v: Seq<TargetOp>) -> Seq<Op> {
    v.map_values(|o: TargetOp| o@)
}

/// A target that stores every primitive operation pushed at it, in
/// order, under a fixed width budget.
pub struct RecordTarget {
    pub width: usize,
    pub recorded: Vec<TargetOp>,
}

impl RecordTarget {
    /// An empty recorder with the given width budget.
    pub fn new(width: usize) -> (r: Self)
        ensures
            r.width == width,
            r.recorded@ == Seq::<TargetOp>::empty(),
    {
        RecordTarget { width, recorded: Vec::new() }
    }

    /// The recorded operations, in the order they were consumed.
    pub fn into_ops(self) -> (r: Vec<TargetOp>)
        ensures
            r == self.recorded,
    {
        self.recorded
    }
}

impl Target for RecordTarget {
    open spec fn ops(&self) -> Seq<Op> {
        record_ops(self.recorded@)
    }

    open spec fn width_spec(&self) -> nat {
        self.width as nat
    }

    fn width(&self) -> (r: usize) {
        self.width
    }

    fn push_attr(&mut self, attr: Attr) {
        self.recorded.push(TargetOp::PushAttr(attr));
        proof {
            assert(record_ops(self.recorded@) =~= record_ops(old(self).recorded@).push(
                Op::PushAttr(attr),
            ));
        }
    }

    fn push_str(&mut self, text: String) {
        let ghost t = text@;
        self.recorded.push(TargetOp::Text(text));
        proof {
            assert(record_ops(self.recorded@) =~= record_ops(old(self).recorded@).push(
                Op::Text(t),
            ));
        }
    }

    fn newline(&mut self) {
        self.recorded.push(TargetOp::Newline);
        proof {
            assert(record_ops(self.recorded@) =~= record_ops(old(self).recorded@).push(
                Op::Newline,
            ));
        }
    }
}

/// The spans of one line, as mathematical values.
pub open spec fn span_view(s: Seq<(String, Attr)>) -> Seq<(Seq<char>, Attr)> {
    s.map_values(|p: (String, Attr)| (p.0@, p.1))
}

/// The spans of every line, as mathematical values.
pub open spec fn lines_view(l: Seq<Vec<(String, Attr)>>) -> Seq<Seq<(Seq<char>, Attr)>> {
    l.map_values(|v: Vec<(String, Attr)>| span_view(v@))
}

/// The state of the line builder: the completed lines, the open line,
/// and the current style.
pub struct SpanState {
    pub lines: Seq<Seq<(Seq<char>, Attr)>>,
    pub open_line: Seq<(Seq<char>, Attr)>,
    pub attr: Attr,
}

/// The line-builder state after the first `i` operations: a style
/// change sets the current style, text joins the open line as one span
/// under it, a newline completes the open line (the style is kept).
pub open spec fn span_state(ops: Seq<Op>, i: int) -> SpanState
    decreases i,
{
    if i <= 0 {
        SpanState {
            lines: Seq::empty(),
            open_line: Seq::empty(),
            attr: crate::attr_default(),
        }
    } else {
        let st = span_state(ops, i - 1);
        match ops[i - 1] {
            Op::PushAttr(a) => SpanState { attr: a, ..st },
            Op::Text(t) => SpanState { open_line: st.open_line.push((t, st.attr)), ..st },
            Op::Newline => SpanState {
                lines: st.lines.push(st.open_line),
                open_line: Seq::empty(),
                ..st
            },
        }
    }
}

/// The styled lines of an operation sequence: each completed line as
/// its styled spans, with a non-empty open line completed at the end.
pub open spec fn styled_lines_spec(ops: Seq<Op>) -> Seq<Seq<(Seq<char>, Attr)>> {
    let st = span_state(ops, ops.len() as int);
    if st.open_line.len() > 0 {
        st.lines.push(st.open_line)
    } else {
        st.lines
    }
}

/// Group recorded operations into lines of styled spans: each text
/// operation becomes one span under the style most recently set, and
/// each newline completes a line.
#[verifier::loop_isolation(false)]
pub fn styled_lines(ops: &Vec<TargetOp>) -> (r: Vec<Vec<(String, Attr)>>)
    ensures
        lines_view(r@) == styled_lines_spec(record_ops(ops@)),
{
    let ghost ov = record_ops(ops@);
    let mut lines: Vec<Vec<(String, Attr)>> = Vec::new();
    let mut open_line: Vec<(String, Attr)> = Vec::new();
    let mut attr = Attr::default();
    let mut i: usize = 0;
    proof {
        assert(lines_view(lines@) =~= span_state(ov, 0).lines);
        assert(span_view(open_line@) =~= span_state(ov, 0).open_line);
    }
    while i < ops.len()
        invariant
            i <= ops@.len(),
            lines_view(lines@) == span_state(ov, i as int).lines,
            span_view(open_line@) == span_state(ov, i as int).open_line,
            attr == span_state(ov, i as int).attr,
        decreases ops@.len() - i,
    {
        proof {
            assert(ov[i as int] == ops@[i as int]@);
        }
        match &ops[i] {
            TargetOp::PushAttr(a) => {
                attr = *a;
            },
            TargetOp::Text(s) => {
                open_line.push((s.clone(), attr));
                proof {
                    assert(span_view(open_line@) =~= span_state(ov, i + 1).open_line);
                }
            },
            TargetOp::Newline => {
                let done = open_line;
                open_line = Vec::new();
                lines.push(done);
                proof {
                    assert(lines_view(lines@) =~= span_state(ov, i + 1).lines);
                    assert(span_view(open_line@) =~= span_state(ov, i + 1).open_line);
                }
            },
        }
        i = i + 1;
    }
    if open_line.len() > 0 {
        lines.push(open_line);
        proof {
            assert(lines_view(lines@) =~= styled_lines_spec(ov));
        }
    }
    lines
}

} // verus!
