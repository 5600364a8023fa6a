//! Styled, boxed, tabular terminal output behind a backend-agnostic
//! rendering protocol.
//!
//! Callers build declarative values (tables, bordered boxes, tab bars,
//! message panels) and render them against any [`Target`].  A `Target`
//! consumes a sequence of primitive operations (set style, emit text, end
//! line); a [`Printable`] value knows how to decompose itself into that
//! sequence.  The contracts pin the exact operation sequence each widget
//! emits, so rendering is deterministic for any two targets of equal width.

use vstd::prelude::*;

pub mod ansi;
pub mod border_box;
pub mod colour;
pub mod message_box;
pub mod record;
pub mod table;
pub mod tabs;
pub mod text;

pub use colour::Colour;

verus! {

/// One primitive rendering operation, as seen by the specifications.
/// A target's whole observable history is a sequence of these.
pub enum Op {
    /// Set the current style for subsequent text.
    PushAttr(Attr),
    /// Emit text under the current style.
    Text(Seq<char>),
    /// End the current line; the current style is kept.
    Newline,
}

/// An immutable styling token: optional foreground and background colours
/// plus a bold flag.  Unset colours mean "terminal default".
#[derive(Clone, Copy, Debug, PartialEq, Eq)]
pub struct Attr {
    pub foreground: Option<Colour>,
    pub background: Option<Colour>,
    pub bold: bool,
}

impl Attr {
    /// The all-unset, not-bold token.
    pub fn default() -> (r: Self)
        ensures
            r == attr_default(),
    {
        Attr { foreground: None, background: None, bold: false }
    }

    /// A copy of `self` with the foreground set to `foreground`.
    pub fn foreground(self, foreground: Colour) -> (r: Self)
        ensures
            r == (Attr { foreground: Some(foreground), ..self }),
    {
        Attr { foreground: Some(foreground), ..self }
    }

    /// A copy of `self` with the background set to `background`.
    pub fn background(self, background: Colour) -> (r: Self)
        ensures
            r == (Attr { background: Some(background), ..self }),
    {
        Attr { background: Some(background), ..self }
    }

    /// A copy of `self` with the bold flag set to `bold`.
    pub fn bold(self, bold: bool) -> (r: Self)
        ensures
            r == (Attr { bold: bold, ..self }),
    {
        Attr { bold: bold, ..self }
    }
}

/// The all-unset, not-bold styling token.
pub open spec fn attr_default() -> Attr {
    Attr { foreground: None, background: None, bold: false }
}

/// The backend abstraction: a consumer of primitive styling, text and
/// newline operations, with a fixed rendering width budget.
///
/// `ops()` is the history of operations the target has consumed so far;
/// each primitive appends exactly one operation and leaves the width
/// budget unchanged.
pub trait Target: Sized {
    /// The operations consumed so far.
    spec fn ops(&self) -> Seq<Op>;

    /// The width budget, fixed for the target's lifetime.
    spec fn width_spec(&self) -> nat;

    /// The rendering width budget.
    fn width(&self) -> (r: usize)
        ensures
            r as nat == self.width_spec(),
    ;

    /// Set the current style for subsequent text until changed.
    fn push_attr(&mut self, attr: Attr)
        ensures
            final(self).ops() == old(self).ops().push(Op::PushAttr(attr)),
            final(self).width_spec() == old(self).width_spec(),
    ;

    /// Emit `text` under the current style.
    fn push_str(&mut self, text: String)
        ensures
            final(self).ops() == old(self).ops().push(Op::Text(text@)),
            final(self).width_spec() == old(self).width_spec(),
    ;

    /// End the current line.  Line-local state is reset; the current
    /// style is not.
    fn newline(&mut self)
        ensures
            final(self).ops() == old(self).ops().push(Op::Newline),
            final(self).width_spec() == old(self).width_spec(),
    ;
}

/// A value that can decompose itself into a sequence of [`Target`]
/// primitives.  `render_ops` names that sequence, which depends only on
/// the value and the target's width budget: rendering one value against
/// two targets of equal width appends structurally identical operation
/// sequences to both.
pub trait Printable: Sized {
    /// The operations that rendering `self` appends to a target whose
    /// width budget is `width`.
    spec fn render_ops(&self, width: nat) -> Seq<Op>;

    /// What `print` needs of the target's width budget (machine limits
    /// only; `true` for most widgets).
    spec fn print_requires(&self, width: nat) -> bool;

    /// Render `self`, consuming it and appending `render_ops` to the
    /// target's history.
    fn print<T: Target>(self, target: &mut T)
        requires
            self.print_requires(old(target).width_spec()),
        ensures
            final(target).ops() == old(target).ops() + self.render_ops(
                old(target).width_spec(),
            ),
            final(target).width_spec() == old(target).width_spec(),
    ;
}

impl Printable for String {
    open spec fn render_ops(&self, width: nat) -> Seq<Op> {
        seq![Op::Text(self@)]
    }

    open spec fn print_requires(&self, width: nat) -> bool {
        true
    }

    fn print<T: Target>(self, target: &mut T) {
        target.push_str(self);
    }
}

impl Printable for Attr {
    open spec fn render_ops(&self, width: nat) -> Seq<Op> {
        seq![Op::PushAttr(*self)]
    }

    open spec fn print_requires(&self, width: nat) -> bool {
        true
    }

    fn print<T: Target>(self, target: &mut T) {
        target.push_attr(self);
    }
}

/// A terminal's size in character cells.
pub struct Term {
    pub size_rows: usize,
    pub size_cols: usize,
}

impl Term {
    /// Build from a detected size, falling back to 25 rows by 80 columns
    /// when detection reported nothing.
    pub fn from_size(size: Option<(u16, u16)>) -> (r: Term)
        ensures
            r.size_rows == (match size {
                Some(s) => s.0 as usize,
                None => 25usize,
            }),
            r.size_cols == (match size {
                Some(s) => s.1 as usize,
                None => 80usize,
            }),
    {
        match size {
            Some((rows, cols)) => Term { size_rows: rows as usize, size_cols: cols as usize },
            None => Term { size_rows: 25, size_cols: 80 },
        }
    }
}

} // verus!
