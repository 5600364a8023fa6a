//! Message panels: a `MessageBox` wraps multi-line text inside a
//! bordered box, splitting it into lines no wider than the target's
//! width budget (breaking on embedded newlines and greedily at the
//! width boundary, after trimming trailing whitespace from the whole
//! text); a `MiniMessageBox` is a one-line framed label.

use vstd::prelude::*;

use crate::border_box::{border_attr_spec, border_ops_parts, text_attr_spec, BorderType, BoxStyle};
use crate::text::{
    chars_string, push_spaces, push_range, repeat_char, space_str, str_chars, trim_end_chars,
    trim_end_spec,
};
use crate::{attr_default, Attr, Op, Printable, Target};

verus! {

use vstd::string::StrSliceExecFns;
use vstd::string::StringExecFns;

/// The line ranges (in character positions) that greedy splitting
/// produces from position `pos` on, with the current line open since
/// `start`: a line ends at an embedded newline, at the width boundary
/// `max`, and at the end of the text (the last line only if non-empty).
pub open spec fn split_from(s: Seq<char>, max: int, start: int, pos: int) -> Seq<(int, int)>
    decreases s.len() - pos, pos - start,
    when 0 <= start <= pos <= s.len() && pos - start <= max && 1 <= max
{
    if pos >= s.len() {
        if start < s.len() {
            seq![(start, s.len() as int)]
        } else {
            Seq::empty()
        }
    } else if s[pos] == '\n' {
        seq![(start, pos)] + split_from(s, max, pos + 1, pos + 1)
    } else if pos - start == max {
        seq![(start, pos)] + split_from(s, max, pos, pos)
    } else {
        split_from(s, max, start, pos + 1)
    }
}

/// The lines that greedy splitting produces from (already trimmed)
/// text.
pub open spec fn split_lines(s: Seq<char>, max: int) -> Seq<(int, int)> {
    split_from(s, max, 0, 0)
}

/// The length of the longest of the first `k` lines (0 if none).
pub open spec fn max_line_prefix(lines: Seq<(int, int)>, k: int) -> int
    decreases k,
{
    if k <= 0 {
        0
    } else {
        let prev = max_line_prefix(lines, k - 1);
        let cur = lines[k - 1].1 - lines[k - 1].0;
        if cur > prev {
            cur
        } else {
            prev
        }
    }
}

/// The length of the longest line (0 if there are none).
pub open spec fn max_line_len(lines: Seq<(int, int)>) -> int {
    max_line_prefix(lines, lines.len() as int)
}

/// What splitting yields: trim trailing whitespace, split greedily at
/// width `max`, and return the lines with the longest line's length.
pub open spec fn split_spec(s: Seq<char>, max: int) -> (Seq<(int, int)>, int) {
    let t = trim_end_spec(s);
    let lines = split_lines(t, max);
    (lines, max_line_len(lines))
}

/// Character ranges, as integers.
pub open spec fn pairs_view(v: Seq<(usize, usize)>) -> Seq<(int, int)> {
    v.map_values(|p: (usize, usize)| (p.0 as int, p.1 as int))
}

/// Every line splitting produces lies inside the text, starts no
/// earlier than the suspended line, and is at most `max` long.
proof fn lemma_split_from_bounds(s: Seq<char>, max: int, start: int, pos: int)
    requires
        0 <= start <= pos <= s.len(),
        pos - start <= max,
        1 <= max,
    ensures
        forall|i: int|
            0 <= i < split_from(s, max, start, pos).len() ==> {
                let l = #[trigger] split_from(s, max, start, pos)[i];
                &&& start <= l.0 <= l.1 <= s.len()
                &&& l.1 - l.0 <= max
            },
    decreases s.len() - pos, pos - start,
{
    let whole = split_from(s, max, start, pos);
    if pos >= s.len() {
        if start < s.len() {
            assert(whole == seq![(start, s.len() as int)]);
            assert(whole[0] == (start, s.len() as int));
        } else {
            assert(whole == Seq::<(int, int)>::empty());
        }
    } else if s[pos] == '\n' {
        lemma_split_from_bounds(s, max, pos + 1, pos + 1);
        let tail = split_from(s, max, pos + 1, pos + 1);
        assert(whole == seq![(start, pos)] + tail);
        assert forall|i: int| 0 <= i < whole.len() implies {
            let l = #[trigger] whole[i];
            &&& start <= l.0 <= l.1 <= s.len()
            &&& l.1 - l.0 <= max
        } by {
            if i == 0 {
                assert(whole[0] == (start, pos));
            } else {
                assert(whole[i] == tail[i - 1]);
            }
        }
    } else if pos - start == max {
        lemma_split_from_bounds(s, max, pos, pos);
        let tail = split_from(s, max, pos, pos);
        assert(whole == seq![(start, pos)] + tail);
        assert forall|i: int| 0 <= i < whole.len() implies {
            let l = #[trigger] whole[i];
            &&& start <= l.0 <= l.1 <= s.len()
            &&& l.1 - l.0 <= max
        } by {
            if i == 0 {
                assert(whole[0] == (start, pos));
            } else {
                assert(whole[i] == tail[i - 1]);
            }
        }
    } else {
        lemma_split_from_bounds(s, max, start, pos + 1);
        assert(whole == split_from(s, max, start, pos + 1));
    }
}

/// The longest of the first `k` lines is at least line `i`'s length.
proof fn lemma_max_line_ge(lines: Seq<(int, int)>, i: int, k: int)
    requires
        0 <= i < k <= lines.len(),
    ensures
        max_line_prefix(lines, k) >= lines[i].1 - lines[i].0,
    decreases k,
{
    if i < k - 1 {
        lemma_max_line_ge(lines, i, k - 1);
    }
}

/// The longest-line length is non-negative.
proof fn lemma_max_line_nonneg(lines: Seq<(int, int)>, k: int)
    ensures
        max_line_prefix(lines, k) >= 0,
    decreases k,
{
    if k > 0 {
        lemma_max_line_nonneg(lines, k - 1);
    }
}

/// A bound that holds of every line's length holds of the longest.
proof fn lemma_max_line_le(lines: Seq<(int, int)>, k: int, bound: int)
    requires
        0 <= k <= lines.len(),
        bound >= 0,
        forall|i: int| 0 <= i < k ==> (#[trigger] lines[i]).1 - lines[i].0 <= bound,
    ensures
        max_line_prefix(lines, k) <= bound,
    decreases k,
{
    if k > 0 {
        lemma_max_line_le(lines, k - 1, bound);
    }
}

/// The longest of the first `k` lines depends only on those lines.
proof fn lemma_max_line_prefix_agree(l1: Seq<(int, int)>, l2: Seq<(int, int)>, k: int)
    requires
        forall|i: int| 0 <= i < k ==> #[trigger] l1[i] == l2[i],
    ensures
        max_line_prefix(l1, k) == max_line_prefix(l2, k),
    decreases k,
{
    if k > 0 {
        lemma_max_line_prefix_agree(l1, l2, k - 1);
    }
}

/// Split `text` into lines no wider than `max_width` characters,
/// breaking on embedded newlines and greedily at the width boundary,
/// after trimming trailing whitespace from the whole text.  Returns the
/// lines as character ranges, and the longest line's length.
#[verifier::loop_isolation(false)]
pub fn split(text: &str, max_width: usize) -> (r: (Vec<(usize, usize)>, usize))
    requires
        max_width >= 1,
    ensures
        pairs_view(r.0@) == split_spec(text@, max_width as int).0,
        r.1 as int == split_spec(text@, max_width as int).1,
{
    let chars = trim_end_chars(str_chars(text));
    let ghost t = chars@;
    let ghost max = max_width as int;
    let n = chars.len();
    let mut lines: Vec<(usize, usize)> = Vec::new();
    let mut width: usize = 0;
    let mut start: usize = 0;
    let mut pos: usize = 0;
    proof {
        assert(pairs_view(lines@) =~= Seq::<(int, int)>::empty());
        assert(Seq::<(int, int)>::empty() + split_from(t, max, 0, 0) =~= split_from(t, max, 0, 0));
    }
    while pos < n
        invariant
            start <= pos <= n,
            n == t.len(),
            pos - start <= max_width,
            split_lines(t, max) == pairs_view(lines@) + split_from(t, max, start as int, pos as int),
            width as int == max_line_len(pairs_view(lines@)),
        decreases n - pos, pos - start,
    {
        let c = chars[pos];
        let ghost lv0 = pairs_view(lines@);
        if c == '\n' {
            lines.push((start, pos));
            if pos - start > width {
                width = pos - start;
            }
            proof {
                assert(pairs_view(lines@) =~= lv0.push((start as int, pos as int)));
                lemma_max_line_prefix_agree(lv0, pairs_view(lines@), lv0.len() as int);
                assert(split_from(t, max, start as int, pos as int) == seq![
                    (start as int, pos as int),
                ] + split_from(t, max, pos + 1, pos + 1));
                assert(pairs_view(lines@) + split_from(t, max, pos + 1, pos + 1) =~= lv0 + (seq![
                    (start as int, pos as int),
                ] + split_from(t, max, pos + 1, pos + 1)));
            }
            start = pos + 1;
            pos = pos + 1;
        } else if pos - start == max_width {
            lines.push((start, pos));
            if pos - start > width {
                width = pos - start;
            }
            proof {
                assert(pairs_view(lines@) =~= lv0.push((start as int, pos as int)));
                lemma_max_line_prefix_agree(lv0, pairs_view(lines@), lv0.len() as int);
                assert(split_from(t, max, start as int, pos as int) == seq![
                    (start as int, pos as int),
                ] + split_from(t, max, pos as int, pos as int));
                assert(pairs_view(lines@) + split_from(t, max, pos as int, pos as int) =~= lv0
                    + (seq![(start as int, pos as int)] + split_from(
                    t,
                    max,
                    pos as int,
                    pos as int,
                )));
            }
            start = pos;
        } else {
            pos = pos + 1;
        }
    }
    let ghost lv0 = pairs_view(lines@);
    if start < n {
        lines.push((start, n));
        if n - start > width {
            width = n - start;
        }
        proof {
            assert(pairs_view(lines@) =~= lv0.push((start as int, n as int)));
            lemma_max_line_prefix_agree(lv0, pairs_view(lines@), lv0.len() as int);
            assert(split_from(t, max, start as int, n as int) == seq![(start as int, n as int)]);
            assert(lv0 + seq![(start as int, n as int)] =~= pairs_view(lines@));
        }
    } else {
        proof {
            assert(split_from(t, max, start as int, n as int) =~= Seq::<(int, int)>::empty());
            assert(lv0 + Seq::<(int, int)>::empty() =~= lv0);
        }
    }
    (lines, width)
}

/// Splitting text that is already one split line, with no embedded
/// newline, no more than `max` characters, no trailing whitespace and
/// at least one character, returns that single line unchanged.
pub proof fn lemma_split_idempotent(s: Seq<char>, max: int)
    requires
        1 <= max,
        0 < s.len() <= max,
        forall|i: int| 0 <= i < s.len() ==> #[trigger] s[i] != '\n',
        !is_whitespace_char_at_end(s),
    ensures
        split_spec(s, max) == (seq![(0int, s.len() as int)], s.len() as int),
{
    assert(trim_end_spec(s) == s);
    lemma_split_all_fits(s, max, 0, 0);
    let lines = seq![(0int, s.len() as int)];
    assert(max_line_prefix(lines, 0) == 0);
    assert(max_line_prefix(lines, 1) == s.len());
}

/// Whether the last character is whitespace (false for empty text).
pub open spec fn is_whitespace_char_at_end(s: Seq<char>) -> bool {
    s.len() > 0 && crate::text::is_whitespace_char(s.last())
}

/// When the rest of the current line fits in the budget and holds no
/// newline, splitting emits exactly one line to the end of the text.
proof fn lemma_split_all_fits(s: Seq<char>, max: int, start: int, pos: int)
    requires
        1 <= max,
        0 <= start <= pos <= s.len(),
        start < s.len(),
        s.len() - start <= max,
        forall|i: int| pos <= i < s.len() ==> #[trigger] s[i] != '\n',
    ensures
        split_from(s, max, start, pos) == seq![(start, s.len() as int)],
    decreases s.len() - pos,
{
    if pos < s.len() {
        lemma_split_all_fits(s, max, start, pos + 1);
    }
}

/// A message box: arbitrary text wrapped and framed by a box style.
pub struct MessageBox {
    pub box_style: BoxStyle,
    pub text: String,
}

impl MessageBox {
    pub fn new(box_style: BoxStyle, text: String) -> (r: Self)
        ensures
            r.box_style == box_style,
            r.text == text,
    {
        MessageBox { box_style, text }
    }
}

/// One split line, framed for the box interior: two spaces, the line's
/// characters, padding to the longest line, two spaces.
pub open spec fn line_text(t: Seq<char>, line: (int, int), tw: int) -> Seq<char> {
    seq![' ', ' '] + t.subrange(line.0, line.1) + repeat_char(' ', (tw - (line.1 - line.0)) as nat)
        + seq![' ', ' ']
}

/// The operations one interior line of a message box emits.
pub open spec fn message_line_ops(style: BoxStyle, t: Seq<char>, line: (int, int), tw: int) -> Seq<
    Op,
> {
    seq![
        Op::Text(seq![' ']),
        Op::PushAttr(text_attr_spec(style)),
        Op::Text(line_text(t, line, tw)),
        Op::PushAttr(attr_default()),
        Op::Newline,
    ]
}

/// The operations of the first `k` interior lines, in order.
pub open spec fn message_lines_ops(
    style: BoxStyle,
    t: Seq<char>,
    lines: Seq<(int, int)>,
    tw: int,
    k: int,
) -> Seq<Op>
    decreases k,
{
    if k <= 0 {
        Seq::empty()
    } else {
        message_lines_ops(style, t, lines, tw, k - 1) + message_line_ops(
            style,
            t,
            lines[k - 1],
            tw,
        )
    }
}

/// The operations a message box emits against a target of width
/// `width`: a top rule, one framed line per split line, a bottom rule.
pub open spec fn message_box_ops(style: BoxStyle, text: Seq<char>, width: nat) -> Seq<Op> {
    let t = trim_end_spec(text);
    let lines = split_lines(t, width as int);
    let tw = max_line_len(lines);
    seq![Op::Text(seq![' '])] + border_ops_parts(
        BorderType::Top,
        style.surround,
        style.background,
        (tw + 4) as nat,
    ) + seq![Op::Newline] + message_lines_ops(style, t, lines, tw, lines.len() as int) + seq![
        Op::Text(seq![' ']),
    ] + border_ops_parts(
        BorderType::Bottom,
        style.surround,
        style.background,
        (tw + 4) as nat,
    ) + seq![Op::Newline]
}

impl Printable for MessageBox {
    open spec fn render_ops(&self, width: nat) -> Seq<Op> {
        message_box_ops(self.box_style, self.text@, width)
    }

    open spec fn print_requires(&self, width: nat) -> bool {
        1 <= width && width + 8 <= usize::MAX
    }

    #[verifier::loop_isolation(false)]
    fn print<T: Target>(self, target: &mut T) {
        let ghost wg: nat = old(target).width_spec();
        let ghost base = old(target).ops();
        let box_style = self.box_style;
        let max_width = target.width();
        let chars = trim_end_chars(str_chars(self.text.as_str()));
        let ghost t = chars@;
        let (lines, text_width) = split(self.text.as_str(), max_width);
        let ghost lv = pairs_view(lines@);
        let ghost tw = text_width as int;
        proof {
            assert(t == trim_end_spec(self.text@));
            assert(lv == split_lines(t, max_width as int));
            assert(tw == max_line_len(lv));
            lemma_split_from_bounds(t, max_width as int, 0, 0);
            lemma_max_line_nonneg(lv, lv.len() as int);
            lemma_max_line_le(lv, lv.len() as int, max_width as int);
        }
        let border_box = box_style.with_width(text_width + 4);
        let ghost top_part = seq![Op::Text(seq![' '])] + border_ops_parts(
            BorderType::Top,
            box_style.surround,
            box_style.background,
            (tw + 4) as nat,
        ) + seq![Op::Newline];
        target.push_str(space_str());
        border_box.top().print(target);
        target.newline();
        proof {
            assert(target.ops() =~= base + top_part);
        }
        let mut k: usize = 0;
        while k < lines.len()
            invariant
                k <= lines@.len(),
                target.width_spec() == wg,
                target.ops() == base + top_part + message_lines_ops(box_style, t, lv, tw, k as int),
            decreases lines@.len() - k,
        {
            let (ls, le) = lines[k];
            proof {
                assert(lv[k as int] == (ls as int, le as int));
                lemma_max_line_ge(lv, k as int, lv.len() as int);
            }
            let mut buf: Vec<char> = Vec::new();
            buf.push(' ');
            buf.push(' ');
            push_range(&mut buf, &chars, ls, le);
            push_spaces(&mut buf, text_width - (le - ls));
            buf.push(' ');
            buf.push(' ');
            proof {
                assert(buf@ =~= line_text(t, lv[k as int], tw));
            }
            target.push_str(space_str());
            target.push_attr(box_style.text_attr());
            target.push_str(chars_string(&buf));
            target.push_attr(Attr::default());
            target.newline();
            proof {
                assert(message_lines_ops(box_style, t, lv, tw, k + 1) == message_lines_ops(
                    box_style,
                    t,
                    lv,
                    tw,
                    k as int,
                ) + message_line_ops(box_style, t, lv[k as int], tw));
                assert(target.ops() =~= base + top_part + message_lines_ops(
                    box_style,
                    t,
                    lv,
                    tw,
                    k + 1,
                ));
            }
            k = k + 1;
        }
        target.push_str(space_str());
        border_box.bottom().print(target);
        target.newline();
        proof {
            assert(target.ops() =~= base + message_box_ops(box_style, self.text@, wg));
        }
    }
}

/// A one-line framed label: a left cap glyph, the text between single
/// spaces, a right cap glyph.
pub struct MiniMessageBox {
    pub box_style: BoxStyle,
    pub text: String,
    pub width: usize,
}

impl MiniMessageBox {
    /// Frame `text`; the rendered width is its character count plus the
    /// two caps and two spaces.
    pub fn new(box_style: BoxStyle, text: String) -> (r: Self)
        requires
            text@.len() + 4 <= usize::MAX,
        ensures
            r.box_style == box_style,
            r.text == text,
            r.width == text@.len() + 4,
    {
        let n = text.as_str().unicode_len();
        MiniMessageBox { box_style, text, width: n + 4 }
    }

    /// The rendered width: the text's character count plus four.
    pub fn width(&self) -> (r: usize)
        ensures
            r == self.width,
    {
        self.width
    }
}

/// The operations a mini message box emits.
pub open spec fn mini_message_box_ops(style: BoxStyle, text: Seq<char>) -> Seq<Op> {
    seq![
        Op::PushAttr(border_attr_spec(style)),
        Op::Text(seq!['🬫']),
        Op::PushAttr(text_attr_spec(style)),
        Op::Text(seq![' ']),
        Op::Text(text),
        Op::Text(seq![' ']),
        Op::PushAttr(border_attr_spec(style)),
        Op::Text(seq!['🬛']),
        Op::PushAttr(attr_default()),
    ]
}

impl Printable for MiniMessageBox {
    open spec fn render_ops(&self, width: nat) -> Seq<Op> {
        mini_message_box_ops(self.box_style, self.text@)
    }

    open spec fn print_requires(&self, width: nat) -> bool {
        true
    }

    fn print<T: Target>(self, target: &mut T) {
        let box_style = self.box_style;
        target.push_attr(box_style.border_attr());
        let cap_left = String::from_str("🬫");
        proof {
            reveal_strlit("🬫");
            assert(cap_left@ =~= seq!['🬫']);
        }
        target.push_str(cap_left);
        target.push_attr(box_style.text_attr());
        target.push_str(space_str());
        target.push_str(self.text);
        target.push_str(space_str());
        target.push_attr(box_style.border_attr());
        let cap_right = String::from_str("🬛");
        proof {
            reveal_strlit("🬛");
            assert(cap_right@ =~= seq!['🬛']);
        }
        target.push_str(cap_right);
        target.push_attr(Attr::default());
        proof {
            assert(final(target).ops() =~= old(target).ops() + mini_message_box_ops(
                self.box_style,
                self.text@,
            ));
        }
    }
}

} // verus!
