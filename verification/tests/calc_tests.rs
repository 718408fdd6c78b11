use pi_flex_layout::calc::{
    align_baseline, align_center, align_end, align_start, align_stretch, calc_gap_by_containing_block,
    calc_length, calc_location_number, calc_margin, calc_number, calc_pos, calc_rect, cross_calc,
    grow_calc, grow_calc_reverse, main_calc, main_calc_reverse, main_cross, margin_calc,
    margin_calc_reverse, max_calc, max_value, min_max_calc, node_iter, shrink_calc,
    shrink_calc_reverse, CalcContext, CharNode, INode, RelNodeInfo, TempNode, TempNodeType,
};
use pi_flex_layout::geometry::{Rect, SideGap, Size};
use pi_flex_layout::line::LineInfo;
use pi_flex_layout::px::Px;
use pi_flex_layout::node_state::{NodeState, BREAK_LINE, CHILDREN_INDEX, LINE_START_MARGIN_ZERO, RNODE, VNODE};
use pi_flex_layout::number::Number;
use pi_flex_layout::order::OrderSort;
use pi_flex_layout::style::{AlignItems, AlignSelf, ContainerStyle, Dimension, Direction, FlexDirection, FlexWrap, OverflowWrap};

fn item(main: f32, cross: f32) -> RelNodeInfo<usize, f32> {
    let mut i: RelNodeInfo<usize, f32> = RelNodeInfo::default();
    i.main = main;
    i.cross = cross;
    i
}

#[test]
fn node_iter_follows_direction() {
    assert_eq!(node_iter(Direction::RTL, 1usize, 2usize), 2);
    assert_eq!(node_iter(Direction::LTR, 1usize, 2usize), 1);
    assert_eq!(node_iter(Direction::Inherit, 1usize, 2usize), 1);
}

#[test]
fn max_calc_falls_back_to_maximum() {
    assert_eq!(max_calc(Number::Undefined, Number::Defined(5.0f32)), Number::Defined(5.0));
    assert_eq!(max_calc(Number::Defined(3.0f32), Number::Defined(5.0)), Number::Defined(3.0));
    assert_eq!(max_calc(Number::<f32>::Undefined, Number::Undefined), Number::Undefined);
}

#[test]
fn main_cross_swaps_for_columns() {
    assert_eq!(main_cross(true, 1, 2), (1, 2));
    assert_eq!(main_cross(false, 1, 2), (2, 1));
}

#[test]
fn grow_and_shrink_placement() {
    let mut i = item(10.0, 0.0);
    i.grow = 2.0;
    i.shrink = 2.0;
    i.margin_main_start = Number::Defined(1.0);
    i.margin_main_end = Number::Defined(2.0);
    let mut pos = 5.0f32;
    assert_eq!(grow_calc(&i, 3.0, &mut pos), (6.0, 16.0));
    assert_eq!(pos, 24.0);
    let mut pos = 100.0f32;
    assert_eq!(grow_calc_reverse(&i, 3.0, &mut pos), (82.0, 16.0));
    assert_eq!(pos, 81.0);
    let mut pos = 5.0f32;
    assert_eq!(shrink_calc(&i, 1.5, &mut pos), (6.0, 7.0));
    assert_eq!(pos, 15.0);
    let mut pos = 100.0f32;
    assert_eq!(shrink_calc_reverse(&i, 1.5, &mut pos), (91.0, 7.0));
    assert_eq!(pos, 90.0);
}

#[test]
fn margin_and_main_placement() {
    let i = item(10.0, 0.0);
    let mut pos = 0.0f32;
    assert_eq!(margin_calc(&i, 4.0, &mut pos), (4.0, 10.0));
    assert_eq!(pos, 18.0);
    let mut pos = 100.0f32;
    assert_eq!(margin_calc_reverse(&i, 4.0, &mut pos), (86.0, 10.0));
    assert_eq!(pos, 82.0);
    let mut j = item(10.0, 0.0);
    j.margin_main_start = Number::Defined(1.0);
    j.margin_main_end = Number::Defined(2.0);
    let mut pos = 0.0f32;
    assert_eq!(main_calc(&j, 5.0, &mut pos), (1.0, 10.0));
    assert_eq!(pos, 18.0);
    let mut pos = 100.0f32;
    assert_eq!(main_calc_reverse(&j, 5.0, &mut pos), (88.0, 10.0));
    assert_eq!(pos, 82.0);
}

#[test]
fn cross_alignments() {
    let mut i = item(0.0, 6.0);
    assert_eq!(align_start(10.0, 50.0, &i), (10.0, 6.0));
    assert_eq!(align_end(10.0, 50.0, &i), (44.0, 6.0));
    assert_eq!(align_center(0.0, 20.0, &i), (7.0, 6.0));
    assert_eq!(align_stretch(0.0, 20.0, &i), (0.0, 20.0));
    i.margin_cross_start = Number::Defined(2.0);
    i.margin_cross_end = Number::Defined(4.0);
    assert_eq!(align_start(10.0, 50.0, &i), (12.0, 6.0));
    assert_eq!(align_end(10.0, 50.0, &i), (40.0, 6.0));
    assert_eq!(align_center(0.0, 20.0, &i), (6.0, 6.0));
    assert_eq!(align_stretch(0.0, 20.0, &i), (2.0, 14.0));
    let mut baseline = Number::Undefined;
    assert_eq!(align_baseline(10.0, 50.0, &i, &mut baseline), (12.0, 6.0));
    assert_eq!(baseline, Number::Defined(18.0));
    assert_eq!(align_baseline(30.0, 50.0, &i, &mut baseline), (12.0, 6.0));
    assert_eq!(baseline, Number::Defined(18.0));
}

#[test]
fn cross_calc_chooses_alignment() {
    let mut i = item(0.0, 6.0);
    i.cross_d = Dimension::Points(6.0);
    let mut b = Number::Undefined;
    assert_eq!(cross_calc(&i, 0.0, 20.0, AlignItems::Center, &mut b), (7.0, 6.0));
    assert_eq!(cross_calc(&i, 0.0, 20.0, AlignItems::FlexEnd, &mut b), (14.0, 6.0));
    i.align_self = AlignSelf::FlexStart;
    assert_eq!(cross_calc(&i, 3.0, 20.0, AlignItems::FlexEnd, &mut b), (3.0, 6.0));
    i.align_self = AlignSelf::Auto;
    i.cross_d = Dimension::Auto;
    assert_eq!(cross_calc(&i, 3.0, 20.0, AlignItems::Stretch, &mut b), (3.0, 20.0));
    assert_eq!(b, Number::Undefined);
}

#[test]
fn numbers_against_parent() {
    assert_eq!(calc_number(Dimension::Points(5.0f32), 100.0), Number::Defined(5.0));
    assert_eq!(calc_number(Dimension::Percent(0.5f32), 100.0), Number::Defined(50.0));
    assert_eq!(calc_number(Dimension::<f32>::Auto, 100.0), Number::Undefined);
    assert_eq!(calc_number(Dimension::<f32>::Undefined, 100.0), Number::Undefined);
    assert_eq!(calc_location_number(Dimension::<f32>::Undefined, 100.0), Number::Defined(0.0));
    assert_eq!(calc_location_number(Dimension::<f32>::Auto, 100.0), Number::Undefined);
    assert_eq!(calc_location_number(Dimension::Percent(0.25f32), 100.0), Number::Defined(25.0));
}

#[test]
fn positions_and_gaps() {
    assert_eq!(calc_pos(Dimension::Points(5.0f32), Dimension::Points(7.0), 100.0, 10.0), 15.0);
    assert_eq!(calc_pos(Dimension::Undefined, Dimension::Percent(0.25f32), 100.0, 10.0), -15.0);
    assert_eq!(calc_pos(Dimension::<f32>::Auto, Dimension::Undefined, 100.0, 10.0), 10.0);
    let g = SideGap { left: Dimension::Percent(0.25f32), right: Dimension::Points(3.0), top: Dimension::Percent(0.125), bottom: Dimension::Auto };
    assert_eq!(calc_gap_by_containing_block(&Size { width: 200.0f32, height: 50.0 }, &g), SideGap { left: 50.0, right: 3.0, top: 25.0, bottom: 0.0 });
}

#[test]
fn margins_and_rects() {
    assert_eq!(calc_margin(0.0f32, 100.0, 20.0, Dimension::Auto, Dimension::Auto, 100.0), (Number::Defined(20.0), 40.0));
    assert_eq!(calc_margin(0.0f32, 100.0, 20.0, Dimension::Points(5.0), Dimension::Auto, 100.0), (Number::Defined(20.0), 5.0));
    assert_eq!(calc_margin(0.0f32, 100.0, 20.0, Dimension::Auto, Dimension::Percent(0.25), 100.0), (Number::Defined(20.0), 55.0));
    assert_eq!(
        calc_rect(Dimension::Points(10.0f32), Dimension::Points(20.0), Number::Undefined, Dimension::Points(1.0), Dimension::Points(2.0), 100.0, 100.0, 0),
        (Number::Defined(67.0), 11.0)
    );
    assert_eq!(
        calc_rect(Dimension::Undefined, Dimension::Points(20.0f32), Number::Defined(30.0), Dimension::Undefined, Dimension::Points(2.0), 100.0, 100.0, -1),
        (Number::Defined(30.0), 48.0)
    );
    assert_eq!(
        calc_rect(Dimension::<f32>::Undefined, Dimension::Undefined, Number::Defined(30.0), Dimension::Undefined, Dimension::Points(2.0), 100.0, 100.0, 1),
        (Number::Defined(30.0), 68.0)
    );
    assert_eq!(
        calc_rect(Dimension::<f32>::Undefined, Dimension::Undefined, Number::Defined(30.0), Dimension::Auto, Dimension::Auto, 100.0, 100.0, 0),
        (Number::Defined(30.0), 35.0)
    );
    assert_eq!(
        calc_rect(Dimension::Points(4.0f32), Dimension::Undefined, Number::Undefined, Dimension::Points(1.0), Dimension::Undefined, 100.0, 100.0, 0),
        (Number::Undefined, 1.0)
    );
}

#[test]
fn clamping() {
    assert_eq!(min_max_calc(5.0f32, Number::Defined(10.0), Number::Undefined), 10.0);
    assert_eq!(min_max_calc(50.0f32, Number::Defined(10.0), Number::Defined(20.0)), 20.0);
    assert_eq!(min_max_calc(15.0f32, Number::Defined(10.0), Number::Defined(20.0)), 15.0);
    assert_eq!(calc_length(Number::<f32>::Undefined, Number::Defined(1.0), Number::Defined(2.0)), Number::Undefined);
    assert_eq!(calc_length(Number::Defined(50.0f32), Number::Undefined, Number::Defined(20.0)), Number::Defined(20.0));
    assert_eq!(max_value(1.0f32, 2.0), 2.0);
    assert_eq!(max_value(3i64, -2), 3);
}

#[test]
fn node_defaults_and_flags() {
    let c: CharNode<f32> = CharNode::default();
    assert_eq!(c.ch, '\0');
    assert_eq!(c.count, 0);
    assert_eq!(c.char_i, -1);
    assert_eq!(c.context_id, -1);
    assert_eq!(c.size.width, Dimension::Points(0.0));
    let n: INode<f32> = INode::new(NodeState::from_bits_truncate(VNODE), 3);
    assert_eq!(n.state.bits(), VNODE | CHILDREN_INDEX);
    assert_eq!(n.char_index, 3);
    assert_eq!(n.scale, 1.0);
    assert!(n.is_vnode());
    assert!(!n.is_rnode());
    let mut d: INode<f32> = INode::default();
    assert!(d.is_rnode());
    d.set_rnode(false);
    d.set_vnode(true);
    d.set_line_start_margin_zero(true);
    d.set_breakline(true);
    assert!(d.is_vnode() && !d.is_rnode());
    assert!(d.state.contains(NodeState::from_bits_truncate(LINE_START_MARGIN_ZERO | BREAK_LINE)));
    d.set_breakline(false);
    assert!(!d.state.contains(NodeState::from_bits_truncate(BREAK_LINE)));
    assert_eq!(d.state.bits() & RNODE, 0);
}

#[test]
fn temp_node_basics() {
    let t: TempNode<usize, f32> = TempNode::default();
    assert!(t.rel_vec.is_empty() && t.abs_vec.is_empty() && !t.row && !t.children_percent);
    let mut flex: ContainerStyle<f32> = ContainerStyle::default();
    let t = TempNode::<usize, f32>::new(flex.clone(), false);
    assert_eq!(t.main_cross(1, 2), (2, 1));
    let mut pos = 5.0f32;
    assert_eq!(t.multi_calc(10.0, 2.0, &mut pos), (5.0, 15.0));
    assert_eq!(pos, 17.0);
    flex.flex_wrap = FlexWrap::WrapReverse;
    let t = TempNode::<usize, f32>::new(flex, true);
    assert_eq!(t.main_cross(1, 2), (1, 2));
    let mut pos = 5.0f32;
    assert_eq!(t.multi_calc(10.0, 2.0, &mut pos), (-5.0, 5.0));
    assert_eq!(pos, -7.0);
    assert!(matches!(TempNodeType::<usize, f32>::default(), TempNodeType::Fixed));
}

#[test]
fn reline_rebuilds_lines_and_percent_sizes() {
    let mut t = TempNode::<usize, f32>::new(ContainerStyle::default(), true);
    let mut a = item(30.0, 5.0);
    a.margin_main_start = Number::Defined(0.0);
    a.margin_main_end = Number::Defined(0.0);
    let mut b = item(0.0, 0.0);
    b.main_d = Dimension::Percent(0.25);
    b.cross_d = Dimension::Percent(0.5);
    b.margin_main_start = Number::Defined(0.0);
    b.margin_main_end = Number::Defined(0.0);
    t.rel_vec.push((a, TempNodeType::Fixed));
    t.rel_vec.push((b, TempNodeType::AutoOk));
    t.children_percent = true;
    let line = t.reline(50.0, 20.0, 0.0);
    assert_eq!(t.rel_vec[1].0.main, 12.5);
    assert_eq!(t.rel_vec[1].0.cross, 10.0);
    assert_eq!(t.rel_vec[0].0.main, 30.0);
    assert_eq!(line.items.len(), 0);
    assert_eq!(line.item.count, 2);
    assert_eq!(line.item.main, 42.5);
    assert_eq!(line.item.cross, 10.0);
    // a narrower container breaks the line before the second item
    let line = t.reline(35.0, 20.0, 0.0);
    assert_eq!(t.rel_vec[1].0.main, 8.75);
    assert_eq!(line.items.len(), 1);
    assert_eq!(line.items[0].count, 1);
    assert_eq!(line.items[0].main, 30.0);
    assert_eq!(line.cross, 5.0);
    assert_eq!(line.item.count, 1);
    assert_eq!(line.item.main, 8.75);
    assert_eq!(line.item.cross, 10.0);
}

fn context(flex: ContainerStyle<f32>) -> CalcContext<usize, f32> {
    CalcContext::new(
        Size { width: 2.0, height: 2.0 },
        Size { width: 1.0, height: 1.0 },
        flex,
        Size { width: Number::Defined(100.0), height: Number::Undefined },
        Size { width: Number::Undefined, height: Number::Defined(20.0) },
        Size { width: Number::Defined(80.0), height: Number::Undefined },
        f32::INFINITY,
    )
}

#[test]
fn calc_context_new_on_both_axes() {
    let c = context(ContainerStyle::default());
    assert_eq!(c.main, Number::Defined(100.0));
    assert_eq!(c.cross, Number::Undefined);
    assert_eq!(c.main_line, f32::INFINITY);
    assert_eq!(c.main_value, 97.0);
    assert_eq!(c.cross_value, 17.0);
    assert_eq!(c.min_size, Size { width: 3.0, height: 20.0 });
    assert!(c.temp.row);
    let mut flex: ContainerStyle<f32> = ContainerStyle::default();
    flex.flex_direction = FlexDirection::Column;
    flex.flex_wrap = FlexWrap::Wrap;
    let c = context(flex);
    assert!(!c.temp.row);
    assert_eq!(c.main, Number::Undefined);
    assert_eq!(c.cross, Number::Defined(100.0));
    assert_eq!(c.main_line, f32::INFINITY);
    assert_eq!(c.main_value, 17.0);
    assert_eq!(c.cross_value, 97.0);
    let mut flex: ContainerStyle<f32> = ContainerStyle::default();
    flex.flex_wrap = FlexWrap::Wrap;
    let c = context(flex);
    assert_eq!(c.main_line, 97.0);
}

fn ch(c: char, w: f32, h: f32) -> CharNode<f32> {
    let mut n: CharNode<f32> = CharNode::default();
    n.ch = c;
    n.size = Size { width: Dimension::Points(w), height: Dimension::Points(h) };
    n.pos = Rect { left: 5.0, right: 5.0 + w, top: 1.0, bottom: 1.0 + h };
    n.count = 1;
    n
}

#[test]
fn text_layout_adds_characters_as_items() {
    let mut c = context(ContainerStyle::default());
    let mut text = vec![ch('a', 10.0, 20.0), ch('\n', 4.0, 20.0), ch('b', 6.0, 20.0)];
    let mut line: LineInfo<f32> = LineInfo::default();
    c.text_layout(7, &mut text, &mut line, OverflowWrap::Normal, 0.0);
    assert_eq!(c.temp.rel_vec.len(), 3);
    assert_eq!(c.temp.rel_vec[0].0.main, 10.0);
    assert_eq!(c.temp.rel_vec[0].0.cross, 20.0);
    assert_eq!(c.temp.rel_vec[0].0.id, 7);
    assert!(c.temp.rel_vec[1].0.breakline);
    assert!(matches!(c.temp.rel_vec[2].1, TempNodeType::CharIndex(2)));
    assert_eq!(line.main, 20.0);
    // the newline starts a second line
    assert_eq!(line.items.len(), 1);
    assert_eq!(line.items[0].count, 1);
    assert_eq!(line.item.count, 2);
}

#[test]
fn text_layout_word_containers() {
    // an unbreakable word is one item; its characters are skipped
    let mut c = context(ContainerStyle::default());
    let mut word = ch('\0', 16.0, 20.0);
    word.count = 3;
    let mut text = vec![word, ch('a', 8.0, 20.0), ch('b', 8.0, 20.0), ch('c', 3.0, 20.0)];
    let mut line: LineInfo<f32> = LineInfo::default();
    c.text_layout(1, &mut text, &mut line, OverflowWrap::Normal, 0.0);
    assert_eq!(c.temp.rel_vec.len(), 2);
    assert!(matches!(c.temp.rel_vec[1].1, TempNodeType::CharIndex(3)));
    assert_eq!(text[0].pos.left, 5.0);
    // a breakable word moves to the origin and its characters are laid out
    let mut c = context(ContainerStyle::default());
    let mut text = vec![word, ch('a', 8.0, 20.0), ch('b', 8.0, 20.0)];
    let mut line: LineInfo<f32> = LineInfo::default();
    c.text_layout(1, &mut text, &mut line, OverflowWrap::BreakWord, 0.0);
    assert_eq!(c.temp.rel_vec.len(), 2);
    assert_eq!(text[0].pos, Rect { left: 0.0, right: 16.0, top: 0.0, bottom: 20.0 });
    assert_eq!(line.main, 16.0);
}

#[test]
fn add_vec_and_add_heap() {
    let mut c = context(ContainerStyle::default());
    let mut line: LineInfo<f32> = LineInfo::default();
    c.add_vec(&mut line, 0, item(10.0, 3.0), TempNodeType::Fixed, 0.0);
    assert_eq!(c.temp.rel_vec.len(), 1);
    assert_eq!(line.item.count, 1);
    let o: OrderSort<usize, f32> = c.add_heap(&mut line, 4, 9, item(5.0, 8.0), TempNodeType::AutoOk, 0.0);
    assert_eq!(o.0, 4);
    assert_eq!(o.1, 9);
    assert_eq!(o.2.main, 5.0);
    assert_eq!(line.item.count, 2);
    assert_eq!(line.item.cross, 8.0);
    assert_eq!(c.temp.rel_vec.len(), 1);
}

#[test]
fn signed_positions_run_below_zero() {
    let mut i: RelNodeInfo<usize, Px> = RelNodeInfo::default();
    i.main = Px(30);
    i.cross = Px(31);
    // an item wider than its line overhangs both ends
    assert_eq!(align_center(Px(0), Px(20), &i), (Px(-5), Px(31)));
    // placed from the end, an item longer than the space left starts below zero
    let mut pos = Px(10);
    assert_eq!(main_calc_reverse(&i, Px(4), &mut pos), (Px(-20), Px(30)));
    assert_eq!(pos, Px(-24));
}
