//! The ANSI escape backend: a target that encodes every primitive
//! operation as its terminal wire bytes into an in-memory buffer.  On
//! every style change it emits the foreground escape (set or reset),
//! then the background escape, then the bold escape, in that fixed
//! order, whatever changed.

use vstd::prelude::*;

use crate::record::{record_ops, TargetOp};
use crate::text::{chars_string, push_range, str_chars};
use crate::{Attr, Colour, Op, Target};

verus! {

/// The character for a decimal digit.
pub open spec fn dec_digit(d: int) -> char {
    if d == 0 {
        '0'
    } else if d == 1 {
        '1'
    } else if d == 2 {
        '2'
    } else if d == 3 {
        '3'
    } else if d == 4 {
        '4'
    } else if d == 5 {
        '5'
    } else if d == 6 {
        '6'
    } else if d == 7 {
        '7'
    } else if d == 8 {
        '8'
    } else {
        '9'
    }
}

/// The decimal digits of a byte, without leading zeroes.
pub open spec fn dec_of(n: u8) -> Seq<char> {
    if n < 10 {
        seq![dec_digit(n as int)]
    } else if n < 100 {
        seq![dec_digit(n as int / 10), dec_digit(n as int % 10)]
    } else {
        seq![
            dec_digit(n as int / 100),
            dec_digit((n as int / 10) % 10),
            dec_digit(n as int % 10),
        ]
    }
}

/// A truecolour escape: `ESC[<lead>;2;<red>;<green>;<blue>m`.
pub open spec fn colour_escape(lead: Seq<char>, c: Colour) -> Seq<char> {
    seq!['\x1b', '['] + lead + seq![';', '2', ';'] + dec_of(c.red) + seq![';'] + dec_of(c.green)
        + seq![';'] + dec_of(c.blue) + seq!['m']
}

/// A plain escape: `ESC[<code>m`.
pub open spec fn simple_escape(code: Seq<char>) -> Seq<char> {
    seq!['\x1b', '['] + code + seq!['m']
}

/// The bytes one style change writes: foreground set (`38;2;R;G;B`) or
/// reset (`39`), then background set (`48;2;R;G;B`) or reset (`49`),
/// then bold on (`1`) or off (`22`).
pub open spec fn attr_chars(attr: Attr) -> Seq<char> {
    (match attr.foreground {
        Some(c) => colour_escape(seq!['3', '8'], c),
        None => simple_escape(seq!['3', '9']),
    }) + (match attr.background {
        Some(c) => colour_escape(seq!['4', '8'], c),
        None => simple_escape(seq!['4', '9']),
    }) + (if attr.bold {
        simple_escape(seq!['1'])
    } else {
        simple_escape(seq!['2', '2'])
    })
}

/// The bytes one operation writes.
pub open spec fn op_chars(op: Op) -> Seq<char> {
    match op {
        Op::PushAttr(a) => attr_chars(a),
        Op::Text(t) => t,
        Op::Newline => seq!['\n'],
    }
}

/// The bytes a whole operation sequence writes, in order.
pub open spec fn ops_chars(ops: Seq<Op>) -> Seq<char>
    decreases ops.len(),
{
    if ops.len() == 0 {
        Seq::empty()
    } else {
        ops_chars(ops.drop_last()) + op_chars(ops.last())
    }
}

/// The character for a decimal digit.
fn dec_digit_exec(d: u8) -> (r: char)
    requires
        d < 10,
    ensures
        r == dec_digit(d as int),
{
    match d {
        0 => '0',
        1 => '1',
        2 => '2',
        3 => '3',
        4 => '4',
        5 => '5',
        6 => '6',
        7 => '7',
        8 => '8',
        _ => '9',
    }
}

/// Append the decimal digits of `n`.
fn push_dec(out: &mut Vec<char>, n: u8)
    ensures
        final(out)@ == old(out)@ + dec_of(n),
{
    if n < 10 {
        out.push(dec_digit_exec(n));
        proof {
            assert(out@ =~= old(out)@ + dec_of(n));
        }
    } else if n < 100 {
        out.push(dec_digit_exec(n / 10));
        out.push(dec_digit_exec(n % 10));
        proof {
            assert(out@ =~= old(out)@ + dec_of(n));
        }
    } else {
        out.push(dec_digit_exec(n / 100));
        out.push(dec_digit_exec((n / 10) % 10));
        out.push(dec_digit_exec(n % 10));
        proof {
            assert(out@ =~= old(out)@ + dec_of(n));
        }
    }
}

/// Append a truecolour escape with the two-digit lead `d1 d2`.
fn push_colour_escape(out: &mut Vec<char>, d1: char, d2: char, c: Colour)
    ensures
        final(out)@ == old(out)@ + colour_escape(seq![d1, d2], c),
{
    out.push('\x1b');
    out.push('[');
    out.push(d1);
    out.push(d2);
    out.push(';');
    out.push('2');
    out.push(';');
    push_dec(out, c.red);
    out.push(';');
    push_dec(out, c.green);
    out.push(';');
    push_dec(out, c.blue);
    out.push('m');
    proof {
        assert(out@ =~= old(out)@ + colour_escape(seq![d1, d2], c));
    }
}

/// Append a one-code plain escape.
fn push_escape1(out: &mut Vec<char>, c1: char)
    ensures
        final(out)@ == old(out)@ + simple_escape(seq![c1]),
{
    out.push('\x1b');
    out.push('[');
    out.push(c1);
    out.push('m');
    proof {
        assert(out@ =~= old(out)@ + simple_escape(seq![c1]));
    }
}

/// Append a two-code plain escape.
fn push_escape2(out: &mut Vec<char>, c1: char, c2: char)
    ensures
        final(out)@ == old(out)@ + simple_escape(seq![c1, c2]),
{
    out.push('\x1b');
    out.push('[');
    out.push(c1);
    out.push(c2);
    out.push('m');
    proof {
        assert(out@ =~= old(out)@ + simple_escape(seq![c1, c2]));
    }
}

/// Append the escapes of one style change: foreground, background,
/// bold, in that fixed order.
fn push_attr_chars(out: &mut Vec<char>, attr: &Attr)
    ensures
        final(out)@ == old(out)@ + attr_chars(*attr),
{
    match attr.foreground {
        Some(c) => push_colour_escape(out, '3', '8', c),
        None => push_escape2(out, '3', '9'),
    }
    match attr.background {
        Some(c) => push_colour_escape(out, '4', '8', c),
        None => push_escape2(out, '4', '9'),
    }
    if attr.bold {
        push_escape1(out, '1');
    } else {
        push_escape2(out, '2', '2');
    }
    proof {
        assert(out@ =~= old(out)@ + attr_chars(*attr));
    }
}

/// A target that encodes every operation it has consumed as its ANSI
/// wire bytes, under a fixed width budget.
pub struct AnsiTarget {
    width: usize,
    recorded: Vec<TargetOp>,
}

impl AnsiTarget {
    /// An empty ANSI target with the given width budget.
    pub fn new(width: usize) -> (r: Self)
        ensures
            r.width_spec() == width,
            r.ops() == Seq::<Op>::empty(),
    {
        let r = AnsiTarget { width, recorded: Vec::new() };
        proof {
            assert(record_ops(r.recorded@) =~= Seq::<Op>::empty());
        }
        r
    }

    /// The wire bytes of every operation consumed so far, in order.
    #[verifier::loop_isolation(false)]
    pub fn output(&self) -> (r: String)
        ensures
            r@ == ops_chars(self.ops()),
    {
        let ghost ops = record_ops(self.recorded@);
        let mut buf: Vec<char> = Vec::new();
        let mut i: usize = 0;
        proof {
            assert(ops.take(0) =~= Seq::<Op>::empty());
        }
        while i < self.recorded.len()
            invariant
                i <= self.recorded@.len(),
                buf@ == ops_chars(ops.take(i as int)),
            decreases self.recorded@.len() - i,
        {
            proof {
                assert(ops[i as int] == self.recorded@[i as int]@);
                assert(ops.take(i + 1).drop_last() =~= ops.take(i as int));
                assert(ops.take(i + 1).last() == ops[i as int]);
            }
            match &self.recorded[i] {
                TargetOp::PushAttr(a) => {
                    push_attr_chars(&mut buf, a);
                },
                TargetOp::Text(s) => {
                    let cs = str_chars(s.as_str());
                    push_range(&mut buf, &cs, 0, cs.len());
                    proof {
                        assert(cs@.subrange(0, cs@.len() as int) =~= cs@);
                    }
                },
                TargetOp::Newline => {
                    buf.push('\n');
                    proof {
                        assert(buf@ =~= ops_chars(ops.take(i as int)) + seq!['\n']);
                    }
                },
            }
            i = i + 1;
        }
        proof {
            assert(ops.take(ops.len() as int) =~= ops);
        }
        chars_string(&buf)
    }
}

impl Target for AnsiTarget {
    closed spec fn ops(&self) -> Seq<Op> {
        record_ops(self.recorded@)
    }

    closed spec fn width_spec(&self) -> nat {
        self.width as nat
    }

    fn width(&self) -> (r: usize) {
        self.width
    }

    fn push_attr(&mut self, attr: Attr) {
        self.recorded.push(TargetOp::PushAttr(attr));
        proof {
            assert(record_ops(self.recorded@) =~= record_ops(old(self).recorded@).push(
                Op::PushAttr(attr),
            ));
        }
    }

    fn push_str(&mut self, text: String) {
        let ghost t = text@;
        self.recorded.push(TargetOp::Text(text));
        proof {
            assert(record_ops(self.recorded@) =~= record_ops(old(self).recorded@).push(
                Op::Text(t),
            ));
        }
    }

    fn newline(&mut self) {
        self.recorded.push(TargetOp::Newline);
        proof {
            assert(record_ops(self.recorded@) =~= record_ops(old(self).recorded@).push(
                Op::Newline,
            ));
        }
    }
}

} // verus!
