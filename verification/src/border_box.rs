//! Borders and bordered boxes: a `BoxStyle` names the three colour roles
//! of a box (surround, background, foreground); a `Border` draws one
//! horizontal rule with box-drawing glyphs.  The middle rule swaps the
//! two colours relative to the top and bottom rules, so it reads as an
//! interior rule rather than an outer edge.

use vstd::prelude::*;

use crate::text::{chars_string, repeat_char, repeat_chars};
use crate::{attr_default, Attr, Colour, Op, Printable, Target};

verus! {

/// The three colour roles of a bordered box: the border rule itself is
/// surround-on-background, the interior text background-on-foreground.
#[derive(Clone, Copy, Debug, PartialEq, Eq, Structural)]
pub struct BoxStyle {
    pub surround: Colour,
    pub background: Colour,
    pub foreground: Colour,
}

/// The style of a border rule: background `surround`, foreground
/// `background`.
pub open spec fn border_attr_spec(s: BoxStyle) -> Attr {
    Attr { foreground: Some(s.background), background: Some(s.surround), bold: false }
}

/// The style of a box's interior text: background `background`,
/// foreground `foreground`.
pub open spec fn text_attr_spec(s: BoxStyle) -> Attr {
    Attr { foreground: Some(s.foreground), background: Some(s.background), bold: false }
}

impl BoxStyle {
    pub fn new(surround: Colour, background: Colour, foreground: Colour) -> (r: Self)
        ensures
            r == (BoxStyle { surround, background, foreground }),
    {
        BoxStyle { surround, background, foreground }
    }

    /// Bind this style to a concrete width.
    pub fn with_width(self, width: usize) -> (r: BorderBox)
        ensures
            r == (BorderBox { box_style: self, width }),
    {
        BorderBox::new(self, width)
    }

    /// The attribute of this box's border rules.
    pub fn border_attr(self) -> (r: Attr)
        ensures
            r == border_attr_spec(self),
    {
        Attr::default().background(self.surround).foreground(self.background)
    }

    /// The attribute of this box's interior text.
    pub fn text_attr(self) -> (r: Attr)
        ensures
            r == text_attr_spec(self),
    {
        Attr::default().background(self.background).foreground(self.foreground)
    }
}

/// A box style bound to a concrete width, producing top, bottom and
/// separator rules.
#[derive(Clone, Copy, Debug)]
pub struct BorderBox {
    pub box_style: BoxStyle,
    pub width: usize,
}

impl BorderBox {
    pub fn new(box_style: BoxStyle, width: usize) -> (r: Self)
        ensures
            r == (BorderBox { box_style, width }),
    {
        BorderBox { box_style, width }
    }

    /// The box's top rule.
    pub fn top(self) -> (r: Border)
        ensures
            r == (Border {
                type_: BorderType::Top,
                background: self.box_style.surround,
                foreground: self.box_style.background,
                width: self.width,
            }),
    {
        Border::top(self.box_style.surround, self.box_style.background, self.width)
    }

    /// The box's bottom rule.
    pub fn bottom(self) -> (r: Border)
        ensures
            r == (Border {
                type_: BorderType::Bottom,
                background: self.box_style.surround,
                foreground: self.box_style.background,
                width: self.width,
            }),
    {
        Border::bottom(self.box_style.surround, self.box_style.background, self.width)
    }

    /// The box's interior separator rule.
    pub fn separator(self) -> (r: Border)
        ensures
            r == (Border {
                type_: BorderType::Middle,
                background: self.box_style.surround,
                foreground: self.box_style.background,
                width: self.width,
            }),
    {
        Border::middle(self.box_style.surround, self.box_style.background, self.width)
    }

    /// The attribute of the box's interior text.
    pub fn text_attr(self) -> (r: Attr)
        ensures
            r == text_attr_spec(self.box_style),
    {
        self.box_style.text_attr()
    }
}

/// One horizontal rule of a box, bound to colours and a width.
#[derive(Clone, Copy, Debug)]
pub struct Border {
    pub type_: BorderType,
    pub background: Colour,
    pub foreground: Colour,
    pub width: usize,
}

/// Which of the box's three rules a border draws.
#[derive(Clone, Copy, Debug, PartialEq, Eq, Structural)]
pub enum BorderType {
    Top,
    Bottom,
    Middle,
}

impl Border {
    pub fn new(type_: BorderType, background: Colour, foreground: Colour, width: usize) -> (r:
        Self)
        ensures
            r == (Border { type_, background, foreground, width }),
    {
        Border { type_, background, foreground, width }
    }

    pub fn top(background: Colour, foreground: Colour, width: usize) -> (r: Self)
        ensures
            r == (Border { type_: BorderType::Top, background, foreground, width }),
    {
        Self::new(BorderType::Top, background, foreground, width)
    }

    pub fn bottom(background: Colour, foreground: Colour, width: usize) -> (r: Self)
        ensures
            r == (Border { type_: BorderType::Bottom, background, foreground, width }),
    {
        Self::new(BorderType::Bottom, background, foreground, width)
    }

    pub fn middle(background: Colour, foreground: Colour, width: usize) -> (r: Self)
        ensures
            r == (Border { type_: BorderType::Middle, background, foreground, width }),
    {
        Self::new(BorderType::Middle, background, foreground, width)
    }
}

/// The glyph a rule repeats: a lower block for the top rule, an upper
/// block for the bottom rule, a light horizontal line for the middle.
pub open spec fn border_glyph(t: BorderType) -> char {
    match t {
        BorderType::Top => '▅',
        BorderType::Bottom => '🮄',
        BorderType::Middle => '─',
    }
}

/// The three operations any rule emits: its attribute, the repeated
/// glyph, and a reset to the terminal default.  The middle rule swaps
/// background and foreground relative to the top and bottom rules.
pub open spec fn border_ops_parts(t: BorderType, bg: Colour, fg: Colour, width: nat) -> Seq<Op> {
    let swapped: (Colour, Colour) = match t {
        BorderType::Top => (bg, fg),
        BorderType::Bottom => (bg, fg),
        BorderType::Middle => (fg, bg),
    };
    seq![
        Op::PushAttr(
            Attr { foreground: Some(swapped.1), background: Some(swapped.0), bold: false },
        ),
        Op::Text(repeat_char(border_glyph(t), width)),
        Op::PushAttr(attr_default()),
    ]
}

/// The operations a border emits.
pub open spec fn border_ops(b: Border) -> Seq<Op> {
    border_ops_parts(b.type_, b.background, b.foreground, b.width as nat)
}

impl Printable for Border {
    open spec fn render_ops(&self, width: nat) -> Seq<Op> {
        border_ops(*self)
    }

    open spec fn print_requires(&self, width: nat) -> bool {
        true
    }

    fn print<T: Target>(self, target: &mut T) {
        let (background, foreground, ch) = match self.type_ {
            BorderType::Top => (self.background, self.foreground, '▅'),
            BorderType::Bottom => (self.background, self.foreground, '🮄'),
            BorderType::Middle => (self.foreground, self.background, '─'),
        };
        target.push_attr(Attr::default().background(background).foreground(foreground));
        let glyphs = repeat_chars(ch, self.width);
        target.push_str(chars_string(&glyphs));
        target.push_attr(Attr::default());
        proof {
            assert(final(target).ops() =~= old(target).ops() + border_ops(self));
        }
    }
}

} // verus!
