use termgrid::border_box::BoxStyle;
use termgrid::colour::Colour;
use termgrid::record::{RecordTarget, TargetOp};
use termgrid::table::{Align, Table, TableBox};
use termgrid::{Attr, Printable};

#[test]
fn width_balancing_tie_break() {
    // Two single-span cells of minimum widths 5 and 5, then one 2-span
    // cell of minimum width 12 over both columns: each column is
    // incremented once in turn, lowest index first on ties.
    let b = Table::builder();
    let b = b.row().space(5).space(5).build();
    let b = b.row().space_span(2, 12).build();
    let t = b.build();
    assert_eq!(vec![6u16, 6u16], t.widths);
    assert_eq!(12, t.width());
}

#[test]
fn widths_meet_every_cell_minimum() {
    let b = Table::builder();
    let b = b.row().left("name".to_string()).right("count".to_string()).build();
    let b = b.row().left("x".to_string()).right("y".to_string()).build();
    let t = b.build();
    assert_eq!(vec![4u16, 5u16], t.widths);
    assert_eq!(9, t.width());
    for row in t.rows() {
        assert!(row.is_cells());
        assert!(!row.is_separator());
    }
}

#[test]
fn wide_cell_only_adds_width() {
    // The single-column pass fixes [3, 1]; the 2-span cell then needs 6
    // and the narrower column takes the extra units first.
    let b = Table::builder();
    let b = b.row().space(3).space(1).build();
    let b = b.row().space_span(2, 6).build();
    let t = b.build();
    assert_eq!(vec![3u16, 3u16], t.widths);
}

#[test]
fn row_text_alignment() {
    let b = Table::builder();
    let b = b.row().left("ab".to_string()).space(4).build();
    let b = b
        .row()
        .left("a".to_string())
        .centre("b".to_string())
        .build();
    let t = b.build();
    assert_eq!(vec![2u16, 4u16], t.widths);
    let rows = t.rows();
    assert_eq!(2, rows.len());
    assert_eq!("ab    ", rows[0].to_text());
    assert_eq!("a  b  ", rows[1].to_text());
}

#[test]
fn separator_rows_are_kept_in_order() {
    let mut b = Table::builder();
    b = b.row().left("top".to_string()).build();
    b.separator();
    b = b.row().left("bottom".to_string()).build();
    let t = b.build();
    let rows = t.rows();
    assert_eq!(3, rows.len());
    assert!(rows[0].is_cells());
    assert!(rows[1].is_separator());
    assert!(rows[2].is_cells());
    assert_eq!("---", rows[1].to_text());
}

#[test]
fn table_box_emits_rule_row_rule() {
    let surround = Colour::new(1, 1, 1);
    let background = Colour::new(2, 2, 2);
    let foreground = Colour::new(3, 3, 3);
    let style = BoxStyle::new(surround, background, foreground);
    let b = Table::builder();
    let b = b.row().left("hi".to_string()).build();
    let t = b.build();
    let mut target = RecordTarget::new(80);
    TableBox::new(style, &t).print(&mut target);
    let ops = target.into_ops();
    // Top rule: indent, rule attr, glyphs (table width 2 plus 4), reset.
    assert_eq!(TargetOp::Text(" ".to_string()), ops[0]);
    assert_eq!(
        TargetOp::PushAttr(Attr::default().background(surround).foreground(background)),
        ops[1]
    );
    assert_eq!(TargetOp::Text("▅▅▅▅▅▅".to_string()), ops[2]);
    assert_eq!(TargetOp::PushAttr(Attr::default()), ops[3]);
    assert_eq!(TargetOp::Newline, ops[4]);
    // The row: indent, text attr, two spaces, the text, two spaces, reset.
    assert_eq!(TargetOp::Text(" ".to_string()), ops[5]);
    assert_eq!(
        TargetOp::PushAttr(Attr::default().background(background).foreground(foreground)),
        ops[6]
    );
    assert_eq!(TargetOp::Text("  ".to_string()), ops[7]);
    assert_eq!(TargetOp::Text("hi".to_string()), ops[8]);
    assert_eq!(TargetOp::Text("  ".to_string()), ops[9]);
    assert_eq!(TargetOp::PushAttr(Attr::default()), ops[10]);
    assert_eq!(TargetOp::Newline, ops[11]);
    // Bottom rule.
    assert_eq!(TargetOp::Text(" ".to_string()), ops[12]);
    assert_eq!(TargetOp::Text("🮄🮄🮄🮄🮄🮄".to_string()), ops[14]);
    assert_eq!(TargetOp::Newline, ops[16]);
    assert_eq!(17, ops.len());
}

#[test]
fn cell_minimum_is_raised_to_text_length() {
    let b = Table::builder();
    let b = b
        .row()
        .cell(1, Align::Left, 2, "abcdef".to_string())
        .build();
    let t = b.build();
    assert_eq!(vec![6u16], t.widths);
}
