use pi_flex_layout::calc::RelNodeInfo;
use pi_flex_layout::line::{LineInfo, LineItem};
use pi_flex_layout::number::Number;

fn info(main: f32, cross: f32) -> RelNodeInfo<usize, f32> {
    let mut i: RelNodeInfo<usize, f32> = RelNodeInfo::default();
    i.main = main;
    i.cross = cross;
    i
}

#[test]
fn merge_counts_margins_and_keeps_largest_cross() {
    let mut it: LineItem<f32> = LineItem::default();
    let mut i = info(10.0, 4.0);
    i.grow = 1.0;
    i.shrink = 0.5;
    i.margin_main_end = Number::Defined(2.0);
    i.margin_cross_start = Number::Defined(1.0);
    it.merge(&i, false);
    assert_eq!(it.count, 1);
    assert_eq!(it.grow, 1.0);
    assert_eq!(it.shrink, 0.5);
    assert_eq!(it.main, 12.0);
    assert_eq!(it.margin_auto, 1);
    assert_eq!(it.cross, 5.0);
    let mut j = info(3.0, 2.0);
    j.margin_main_start = Number::Defined(4.0);
    it.merge(&j, false);
    assert_eq!(it.count, 2);
    assert_eq!(it.main, 19.0);
    assert_eq!(it.margin_auto, 2);
    assert_eq!(it.cross, 5.0);
}

#[test]
fn merge_at_line_start_drops_the_start_margin() {
    let mut it: LineItem<f32> = LineItem::default();
    let mut i = info(10.0, 4.0);
    i.line_start_margin_zero = true;
    i.margin_main_start = Number::Defined(3.0);
    i.margin_main_end = Number::Defined(1.0);
    it.merge(&i, true);
    assert_eq!(it.main, 11.0);
    assert_eq!(it.margin_auto, 0);
    let mut it2: LineItem<f32> = LineItem::default();
    it2.merge(&i, false);
    assert_eq!(it2.main, 14.0);
}

#[test]
fn add_breaks_an_overflowing_line() {
    let mut line: LineInfo<f32> = LineInfo::default();
    let mut a = info(15.0, 6.0);
    a.margin_main_start = Number::Defined(0.0);
    a.margin_main_end = Number::Defined(0.0);
    line.add(20.0, &a, 0.0);
    assert_eq!(line.item.count, 1);
    assert_eq!(line.items.len(), 0);
    let mut b = info(10.0, 3.0);
    b.margin_main_start = Number::Defined(0.0);
    b.margin_main_end = Number::Defined(0.0);
    // 15 + 10 overflows 20 by 5, more than the tolerance 6 allows? no: it joins
    let mut joined = line.clone();
    joined.add(20.0, &b, 6.0);
    assert_eq!(joined.items.len(), 0);
    assert_eq!(joined.item.count, 2);
    assert_eq!(joined.item.main, 25.0);
    // with no tolerance it starts a new line
    line.add(20.0, &b, 0.0);
    assert_eq!(line.items.len(), 1);
    assert_eq!(line.items[0].main, 15.0);
    assert_eq!(line.cross, 6.0);
    assert_eq!(line.item.count, 1);
    assert_eq!(line.item.main, 10.0);
    assert_eq!(line.item.cross, 3.0);
}

#[test]
fn forced_break_starts_a_line() {
    let mut line: LineInfo<f32> = LineInfo::default();
    line.add(100.0, &info(1.0, 1.0), 0.0);
    let mut b = info(1.0, 2.0);
    b.breakline = true;
    line.add(100.0, &b, 0.0);
    assert_eq!(line.items.len(), 1);
    assert_eq!(line.item.count, 1);
    // a break before the very first item finishes an empty line
    let mut empty: LineInfo<f32> = LineInfo::default();
    empty.add(100.0, &b, 0.0);
    assert_eq!(empty.items.len(), 1);
    assert_eq!(empty.items[0].count, 0);
}
