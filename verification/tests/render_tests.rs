use termgrid::ansi::AnsiTarget;
use termgrid::border_box::{Border, BorderBox, BoxStyle};
use termgrid::colour::Colour;
use termgrid::message_box::{split, MessageBox, MiniMessageBox};
use termgrid::record::{styled_lines, RecordTarget, TargetOp};
use termgrid::tabs::{BoxTabs, SlimTabs};
use termgrid::{Attr, Printable, Target, Term};

#[test]
fn split_breaks_on_newlines_and_width() {
    assert_eq!((vec![(0, 5)], 5), split("hello", 10));
    assert_eq!((vec![(0, 3), (3, 6)], 3), split("abcdef", 3));
    assert_eq!((vec![(0, 2), (3, 5)], 2), split("ab\ncd", 10));
    assert_eq!((vec![(0, 2)], 2), split("ab  ", 10));
    assert_eq!((vec![], 0), split("", 5));
    assert_eq!((vec![(0, 2), (3, 3), (4, 5)], 2), split("ab\n\nx ", 10));
}

#[test]
fn split_is_idempotent_on_split_lines() {
    // Splitting text with no newline, within the width, and with no
    // trailing whitespace returns the single line unchanged.
    let (lines, width) = split("lorem ipsum", 40);
    assert_eq!(vec![(0, 11)], lines);
    assert_eq!(11, width);
    let again = split("lorem ipsum", 40);
    assert_eq!((lines, width), again);
}

#[test]
fn border_prints_attr_glyphs_reset() {
    let bg = Colour::new(10, 20, 30);
    let fg = Colour::new(40, 50, 60);
    let mut target = RecordTarget::new(80);
    Border::top(bg, fg, 3).print(&mut target);
    Border::middle(bg, fg, 2).print(&mut target);
    let ops = target.into_ops();
    assert_eq!(
        vec![
            TargetOp::PushAttr(Attr::default().background(bg).foreground(fg)),
            TargetOp::Text("▅▅▅".to_string()),
            TargetOp::PushAttr(Attr::default()),
            // The middle rule swaps the colours.
            TargetOp::PushAttr(Attr::default().background(fg).foreground(bg)),
            TargetOp::Text("──".to_string()),
            TargetOp::PushAttr(Attr::default()),
        ],
        ops
    );
}

#[test]
fn border_box_rules_share_width_and_style() {
    let style = BoxStyle::new(
        Colour::new(1, 2, 3),
        Colour::new(4, 5, 6),
        Colour::new(7, 8, 9),
    );
    let bb = BorderBox::new(style, 4);
    let mut t1 = RecordTarget::new(20);
    bb.top().print(&mut t1);
    bb.separator().print(&mut t1);
    bb.bottom().print(&mut t1);
    let ops = t1.into_ops();
    assert_eq!(TargetOp::Text("▅▅▅▅".to_string()), ops[1]);
    assert_eq!(TargetOp::Text("────".to_string()), ops[4]);
    assert_eq!(TargetOp::Text("🮄🮄🮄🮄".to_string()), ops[7]);
}

#[test]
fn message_box_wraps_and_frames() {
    let style = BoxStyle::new(
        Colour::new(1, 1, 1),
        Colour::new(2, 2, 2),
        Colour::new(3, 3, 3),
    );
    let mut target = RecordTarget::new(80);
    MessageBox::new(style, "hi".to_string()).print(&mut target);
    let ops = target.into_ops();
    assert_eq!(TargetOp::Text(" ".to_string()), ops[0]);
    assert_eq!(TargetOp::Text("▅▅▅▅▅▅".to_string()), ops[2]);
    assert_eq!(TargetOp::Newline, ops[4]);
    assert_eq!(TargetOp::Text(" ".to_string()), ops[5]);
    assert_eq!(TargetOp::Text("  hi  ".to_string()), ops[7]);
    assert_eq!(TargetOp::Newline, ops[9]);
    assert_eq!(TargetOp::Text("🮄🮄🮄🮄🮄🮄".to_string()), ops[12]);
    assert_eq!(TargetOp::Newline, ops[14]);
    assert_eq!(15, ops.len());
}

#[test]
fn message_box_pads_short_lines() {
    let style = BoxStyle::new(
        Colour::new(1, 1, 1),
        Colour::new(2, 2, 2),
        Colour::new(3, 3, 3),
    );
    let mut target = RecordTarget::new(80);
    MessageBox::new(style, "abcd\nx".to_string()).print(&mut target);
    let ops = target.into_ops();
    assert_eq!(TargetOp::Text("  abcd  ".to_string()), ops[7]);
    assert_eq!(TargetOp::Text("  x     ".to_string()), ops[12]);
}

#[test]
fn mini_message_box_caps_and_width() {
    let style = BoxStyle::new(
        Colour::new(1, 1, 1),
        Colour::new(2, 2, 2),
        Colour::new(3, 3, 3),
    );
    let mini = MiniMessageBox::new(style, "ok".to_string());
    assert_eq!(6, mini.width());
    let mut target = RecordTarget::new(80);
    mini.print(&mut target);
    let ops = target.into_ops();
    assert_eq!(
        vec![
            TargetOp::PushAttr(style.border_attr()),
            TargetOp::Text("🬫".to_string()),
            TargetOp::PushAttr(style.text_attr()),
            TargetOp::Text(" ".to_string()),
            TargetOp::Text("ok".to_string()),
            TargetOp::Text(" ".to_string()),
            TargetOp::PushAttr(style.border_attr()),
            TargetOp::Text("🬛".to_string()),
            TargetOp::PushAttr(Attr::default()),
        ],
        ops
    );
}

#[test]
fn slim_tabs_pad_to_target_width() {
    let bg = Attr::default().bold(false);
    let hot = Attr::default().bold(true);
    let tabs = SlimTabs::new(bg, vec![("one".to_string(), hot)]);
    let mut target = RecordTarget::new(10);
    tabs.print(&mut target);
    let ops = target.into_ops();
    // One tab occupies 3 + 3 cells; the strip pads the remaining 4.
    assert_eq!(
        vec![
            TargetOp::PushAttr(bg),
            TargetOp::Text(" ".to_string()),
            TargetOp::PushAttr(hot),
            TargetOp::Text(" ".to_string()),
            TargetOp::Text("one".to_string()),
            TargetOp::Text(" ".to_string()),
            TargetOp::PushAttr(bg),
            TargetOp::Text(" ".to_string()),
            TargetOp::Text(" ".to_string()),
            TargetOp::Text(" ".to_string()),
            TargetOp::Text(" ".to_string()),
            TargetOp::Newline,
        ],
        ops
    );
}

#[test]
fn box_tabs_rows_of_rules_and_labels() {
    let s1 = BoxStyle::new(
        Colour::new(1, 0, 0),
        Colour::new(2, 0, 0),
        Colour::new(3, 0, 0),
    );
    let s2 = BoxStyle::new(
        Colour::new(4, 0, 0),
        Colour::new(5, 0, 0),
        Colour::new(6, 0, 0),
    );
    let tabs = BoxTabs::new(vec![("a".to_string(), s1), ("bc".to_string(), s2)]);
    let mut target = RecordTarget::new(40);
    tabs.print(&mut target);
    let ops = target.into_ops();
    // Top rules: per tab, an indent and a three-op rule; then a newline.
    assert_eq!(TargetOp::Text(" ".to_string()), ops[0]);
    assert_eq!(TargetOp::Text("▅▅▅▅▅".to_string()), ops[2]);
    assert_eq!(TargetOp::Text("▅▅▅▅▅▅".to_string()), ops[6]);
    assert_eq!(TargetOp::Newline, ops[8]);
    // Labels row.
    assert_eq!(TargetOp::Text("a".to_string()), ops[12]);
    assert_eq!(TargetOp::Text("bc".to_string()), ops[18]);
    assert_eq!(TargetOp::Newline, ops[21]);
    // Bottom rules.
    assert_eq!(TargetOp::Text("🮄🮄🮄🮄🮄".to_string()), ops[24]);
    assert_eq!(TargetOp::Text("🮄🮄🮄🮄🮄🮄".to_string()), ops[28]);
    assert_eq!(TargetOp::Newline, ops[30]);
    assert_eq!(31, ops.len());
}

#[test]
fn rendering_is_deterministic_across_targets() {
    let style = BoxStyle::new(
        Colour::new(9, 9, 9),
        Colour::new(8, 8, 8),
        Colour::new(7, 7, 7),
    );
    let mut t1 = RecordTarget::new(24);
    let mut t2 = RecordTarget::new(24);
    MessageBox::new(style, "same text\nover lines".to_string()).print(&mut t1);
    MessageBox::new(style, "same text\nover lines".to_string()).print(&mut t2);
    assert_eq!(t1.into_ops(), t2.into_ops());
}

#[test]
fn ansi_wire_format() {
    let mut target = AnsiTarget::new(80);
    target.push_attr(
        Attr::default()
            .foreground(Colour::new(1, 23, 234))
            .background(Colour::new(0, 0, 0)),
    );
    target.push_str("x".to_string());
    target.push_attr(Attr::default().bold(true));
    target.newline();
    assert_eq!(
        "\x1b[38;2;1;23;234m\x1b[48;2;0;0;0m\x1b[22mx\x1b[39m\x1b[49m\x1b[1m\n",
        target.output()
    );
    assert_eq!(80, target.width());
}

#[test]
fn term_size_defaults() {
    let t = Term::from_size(Some((30, 100)));
    assert_eq!(30, t.size_rows);
    assert_eq!(100, t.size_cols);
    let d = Term::from_size(None);
    assert_eq!(25, d.size_rows);
    assert_eq!(80, d.size_cols);
}

#[test]
fn styled_lines_groups_spans() {
    let mut target = RecordTarget::new(20);
    let hot = Attr::default().bold(true);
    target.push_str("plain".to_string());
    target.push_attr(hot);
    target.push_str("hot".to_string());
    target.newline();
    target.push_str("next".to_string());
    let lines = styled_lines(&target.into_ops());
    assert_eq!(
        vec![
            vec![("plain".to_string(), Attr::default()), ("hot".to_string(), hot)],
            vec![("next".to_string(), hot)],
        ],
        lines
    );
}
