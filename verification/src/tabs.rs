//! Tab bars: `BoxTabs` renders labelled tabs as full bordered boxes
//! side by side (a top rule per tab, a label row, a bottom rule per
//! tab); `SlimTabs` renders them as a single-line strip with a uniform
//! background between and around the highlighted labels, padded on the
//! right to the target's width.

use vstd::prelude::*;

use crate::border_box::{border_ops_parts, text_attr_spec, BorderType, BoxStyle};
use crate::text::{space_str, two_spaces_str};
use crate::{attr_default, Attr, Op, Printable, Target};

verus! {

use vstd::string::StrSliceExecFns;

/// Labelled tabs rendered as full bordered boxes side by side.
pub struct BoxTabs {
    pub tabs: Vec<(String, BoxStyle)>,
}

impl BoxTabs {
    pub fn new(tabs: Vec<(String, BoxStyle)>) -> (r: Self)
        ensures
            r.tabs == tabs,
    {
        BoxTabs { tabs }
    }
}

/// The labels and styles of a tab list, as mathematical values.
pub open spec fn box_tabs_view(tabs: Seq<(String, BoxStyle)>) -> Seq<(Seq<char>, BoxStyle)> {
    tabs.map_values(|p: (String, BoxStyle)| (p.0@, p.1))
}

/// One tab's share of a rule row: a space, then the rule of a box as
/// wide as the label plus four.
pub open spec fn box_tab_rule_ops(t: BorderType, tab: (Seq<char>, BoxStyle)) -> Seq<Op> {
    seq![Op::Text(seq![' '])] + border_ops_parts(
        t,
        tab.1.surround,
        tab.1.background,
        (tab.0.len() + 4) as nat,
    )
}

/// The first `k` tabs' shares of a rule row, in order.
pub open spec fn box_tabs_rules_ops(
    t: BorderType,
    tabs: Seq<(Seq<char>, BoxStyle)>,
    k: int,
) -> Seq<Op>
    decreases k,
{
    if k <= 0 {
        Seq::empty()
    } else {
        box_tabs_rules_ops(t, tabs, k - 1) + box_tab_rule_ops(t, tabs[k - 1])
    }
}

/// One tab's share of the label row: a space, the tab's text attribute,
/// the label between double spaces, a reset.
pub open spec fn box_tab_label_ops(tab: (Seq<char>, BoxStyle)) -> Seq<Op> {
    seq![
        Op::Text(seq![' ']),
        Op::PushAttr(text_attr_spec(tab.1)),
        Op::Text(seq![' ', ' ']),
        Op::Text(tab.0),
        Op::Text(seq![' ', ' ']),
        Op::PushAttr(attr_default()),
    ]
}

/// The first `k` tabs' shares of the label row, in order.
pub open spec fn box_tabs_labels_ops(tabs: Seq<(Seq<char>, BoxStyle)>, k: int) -> Seq<Op>
    decreases k,
{
    if k <= 0 {
        Seq::empty()
    } else {
        box_tabs_labels_ops(tabs, k - 1) + box_tab_label_ops(tabs[k - 1])
    }
}

/// The operations a box-tab bar emits: a row of top rules, the label
/// row, a row of bottom rules, each ended by a newline.
pub open spec fn box_tabs_ops(tabs: Seq<(Seq<char>, BoxStyle)>) -> Seq<Op> {
    box_tabs_rules_ops(BorderType::Top, tabs, tabs.len() as int) + seq![Op::Newline]
        + box_tabs_labels_ops(tabs, tabs.len() as int) + seq![Op::Newline] + box_tabs_rules_ops(
        BorderType::Bottom,
        tabs,
        tabs.len() as int,
    ) + seq![Op::Newline]
}

impl Printable for BoxTabs {
    open spec fn render_ops(&self, width: nat) -> Seq<Op> {
        box_tabs_ops(box_tabs_view(self.tabs@))
    }

    open spec fn print_requires(&self, width: nat) -> bool {
        forall|i: int|
            0 <= i < self.tabs@.len() ==> (#[trigger] self.tabs@[i]).0@.len() + 4 <= usize::MAX
    }

    #[verifier::loop_isolation(false)]
    fn print<T: Target>(self, target: &mut T) {
        let ghost tv = box_tabs_view(self.tabs@);
        let ghost base = old(target).ops();
        let mut i: usize = 0;
        while i < self.tabs.len()
            invariant
                i <= self.tabs@.len(),
                target.width_spec() == old(target).width_spec(),
                target.ops() == base + box_tabs_rules_ops(BorderType::Top, tv, i as int),
            decreases self.tabs@.len() - i,
        {
            proof {
                assert(tv[i as int] == (self.tabs@[i as int].0@, self.tabs@[i as int].1));
            }
            let label_len = self.tabs[i].0.as_str().unicode_len();
            let border_box = self.tabs[i].1.with_width(label_len + 4);
            target.push_str(space_str());
            border_box.top().print(target);
            proof {
                assert(target.ops() =~= base + (box_tabs_rules_ops(BorderType::Top, tv, i as int)
                    + box_tab_rule_ops(BorderType::Top, tv[i as int])));
            }
            i = i + 1;
        }
        target.newline();
        let ghost after_tops = base + box_tabs_rules_ops(BorderType::Top, tv, tv.len() as int)
            + seq![Op::Newline];
        proof {
            assert(target.ops() =~= after_tops);
        }
        let mut i: usize = 0;
        while i < self.tabs.len()
            invariant
                i <= self.tabs@.len(),
                target.width_spec() == old(target).width_spec(),
                target.ops() == after_tops + box_tabs_labels_ops(tv, i as int),
            decreases self.tabs@.len() - i,
        {
            proof {
                assert(tv[i as int] == (self.tabs@[i as int].0@, self.tabs@[i as int].1));
            }
            let label = self.tabs[i].0.clone();
            let style = self.tabs[i].1;
            target.push_str(space_str());
            target.push_attr(style.text_attr());
            target.push_str(two_spaces_str());
            target.push_str(label);
            target.push_str(two_spaces_str());
            target.push_attr(Attr::default());
            proof {
                assert(target.ops() =~= after_tops + (box_tabs_labels_ops(tv, i as int)
                    + box_tab_label_ops(tv[i as int])));
            }
            i = i + 1;
        }
        target.newline();
        let ghost after_labels = after_tops + box_tabs_labels_ops(tv, tv.len() as int) + seq![
            Op::Newline,
        ];
        proof {
            assert(target.ops() =~= after_labels);
        }
        let mut i: usize = 0;
        while i < self.tabs.len()
            invariant
                i <= self.tabs@.len(),
                target.width_spec() == old(target).width_spec(),
                target.ops() == after_labels + box_tabs_rules_ops(BorderType::Bottom, tv, i as int),
            decreases self.tabs@.len() - i,
        {
            proof {
                assert(tv[i as int] == (self.tabs@[i as int].0@, self.tabs@[i as int].1));
            }
            let label_len = self.tabs[i].0.as_str().unicode_len();
            let border_box = self.tabs[i].1.with_width(label_len + 4);
            target.push_str(space_str());
            border_box.bottom().print(target);
            proof {
                assert(target.ops() =~= after_labels + (box_tabs_rules_ops(
                    BorderType::Bottom,
                    tv,
                    i as int,
                ) + box_tab_rule_ops(BorderType::Bottom, tv[i as int])));
            }
            i = i + 1;
        }
        target.newline();
        proof {
            assert(target.ops() =~= base + box_tabs_ops(tv));
        }
    }
}

/// Labelled tabs rendered as a single-line strip.
pub struct SlimTabs {
    pub background: Attr,
    pub tabs: Vec<(String, Attr)>,
}

impl SlimTabs {
    pub fn new(background: Attr, tabs: Vec<(String, Attr)>) -> (r: Self)
        ensures
            r.background == background,
            r.tabs == tabs,
    {
        SlimTabs { background, tabs }
    }
}

/// The labels and attributes of a slim tab list, as mathematical
/// values.
pub open spec fn slim_tabs_view(tabs: Seq<(String, Attr)>) -> Seq<(Seq<char>, Attr)> {
    tabs.map_values(|p: (String, Attr)| (p.0@, p.1))
}

/// One slim tab: the strip background, a space, the tab's attribute,
/// the label between single spaces.
pub open spec fn slim_tab_ops(bg: Attr, tab: (Seq<char>, Attr)) -> Seq<Op> {
    seq![
        Op::PushAttr(bg),
        Op::Text(seq![' ']),
        Op::PushAttr(tab.1),
        Op::Text(seq![' ']),
        Op::Text(tab.0),
        Op::Text(seq![' ']),
    ]
}

/// The first `k` slim tabs, in order.
pub open spec fn slim_tabs_part(bg: Attr, tabs: Seq<(Seq<char>, Attr)>, k: int) -> Seq<Op>
    decreases k,
{
    if k <= 0 {
        Seq::empty()
    } else {
        slim_tabs_part(bg, tabs, k - 1) + slim_tab_ops(bg, tabs[k - 1])
    }
}

/// How many character cells the first `k` tabs occupy: each label plus
/// its three surrounding spaces.
pub open spec fn slim_pos(tabs: Seq<(Seq<char>, Attr)>, k: int) -> int
    decreases k,
{
    if k <= 0 {
        0
    } else {
        slim_pos(tabs, k - 1) + tabs[k - 1].0.len() + 3
    }
}

/// `n` one-space text operations.
pub open spec fn pad_ops(n: nat) -> Seq<Op> {
    Seq::new(n, |i| Op::Text(seq![' ']))
}

/// The operations a slim tab strip emits: the tabs, the strip
/// background, right padding to the target's width, a newline.
pub open spec fn slim_tabs_ops(bg: Attr, tabs: Seq<(Seq<char>, Attr)>, width: nat) -> Seq<Op> {
    let pos = slim_pos(tabs, tabs.len() as int);
    let pad = if width > pos {
        (width - pos) as nat
    } else {
        0nat
    };
    slim_tabs_part(bg, tabs, tabs.len() as int) + seq![Op::PushAttr(bg)] + pad_ops(pad) + seq![
        Op::Newline,
    ]
}

/// Cells occupied only grow as tabs are added.
proof fn lemma_slim_pos_mono(tabs: Seq<(Seq<char>, Attr)>, j: int, k: int)
    requires
        0 <= j <= k,
    ensures
        slim_pos(tabs, j) <= slim_pos(tabs, k),
    decreases k - j,
{
    if j < k {
        lemma_slim_pos_mono(tabs, j, k - 1);
    }
}

impl Printable for SlimTabs {
    open spec fn render_ops(&self, width: nat) -> Seq<Op> {
        slim_tabs_ops(self.background, slim_tabs_view(self.tabs@), width)
    }

    open spec fn print_requires(&self, width: nat) -> bool {
        slim_pos(slim_tabs_view(self.tabs@), self.tabs@.len() as int) <= usize::MAX
    }

    #[verifier::loop_isolation(false)]
    fn print<T: Target>(self, target: &mut T) {
        let ghost tv = slim_tabs_view(self.tabs@);
        let ghost base = old(target).ops();
        let background = self.background;
        let mut pos: usize = 0;
        let mut i: usize = 0;
        while i < self.tabs.len()
            invariant
                i <= self.tabs@.len(),
                target.width_spec() == old(target).width_spec(),
                target.ops() == base + slim_tabs_part(background, tv, i as int),
                pos as int == slim_pos(tv, i as int),
            decreases self.tabs@.len() - i,
        {
            proof {
                assert(tv[i as int] == (self.tabs@[i as int].0@, self.tabs@[i as int].1));
                lemma_slim_pos_mono(tv, i + 1, tv.len() as int);
            }
            let label = self.tabs[i].0.clone();
            let attr = self.tabs[i].1;
            let label_len = label.as_str().unicode_len();
            pos = pos + label_len + 3;
            target.push_attr(background);
            target.push_str(space_str());
            target.push_attr(attr);
            target.push_str(space_str());
            target.push_str(label);
            target.push_str(space_str());
            proof {
                assert(target.ops() =~= base + (slim_tabs_part(background, tv, i as int)
                    + slim_tab_ops(background, tv[i as int])));
            }
            i = i + 1;
        }
        target.push_attr(background);
        let ghost after_tabs = base + slim_tabs_part(background, tv, tv.len() as int) + seq![
            Op::PushAttr(background),
        ];
        proof {
            assert(target.ops() =~= after_tabs);
            assert(pad_ops(0) =~= Seq::<Op>::empty());
        }
        let width = target.width();
        let ghost pos0 = pos as int;
        let mut pad: usize = 0;
        while pos < width
            invariant
                target.width_spec() == old(target).width_spec(),
                pos as int == pos0 + pad,
                pos0 <= pos as int,
                pos as int <= vstd::math::max(pos0, width as int),
                target.ops() == after_tabs + pad_ops(pad as nat),
            decreases width as int - pos,
        {
            target.push_str(space_str());
            pos = pos + 1;
            pad = pad + 1;
            proof {
                assert(pad_ops(pad as nat) =~= pad_ops((pad - 1) as nat).push(
                    Op::Text(seq![' ']),
                ));
            }
        }
        target.newline();
        proof {
            assert(target.ops() =~= base + slim_tabs_ops(
                background,
                tv,
                old(target).width_spec(),
            ));
        }
    }
}

} // verus!
