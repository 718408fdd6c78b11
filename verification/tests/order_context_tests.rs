use std::cmp::Ordering;
use pi_flex_layout::calc::{RelNodeInfo, TempNodeType};
use pi_flex_layout::geometry::{Rect, Size};
use pi_flex_layout::layout_context::{abs_align, children_relayout, cross_align, flex_item_info, CrossAlign};
use pi_flex_layout::layout_tree::Style;
use pi_flex_layout::number::Number;
use pi_flex_layout::node_state::{NodeState, BREAK_LINE, CHILDREN_ABS, CHILDREN_DIRTY, CHILDREN_NO_ALIGN_SELF, CHILDREN_RECT, LINE_START_MARGIN_ZERO};
use pi_flex_layout::order::{order_cmp, OrderSort};
use pi_flex_layout::style::{AlignItems, AlignSelf, ContainerStyle, Dimension, FlexDirection, FlexWrap, JustifyContent};

#[test]
fn order_then_index() {
    assert_eq!(order_cmp((1, 5), (2, 0)), Ordering::Less);
    assert_eq!(order_cmp((2, 0), (1, 5)), Ordering::Greater);
    assert_eq!(order_cmp((1, 3), (1, 4)), Ordering::Less);
    assert_eq!(order_cmp((1, 4), (1, 3)), Ordering::Greater);
    assert_eq!(order_cmp((-1, 4), (-1, 4)), Ordering::Equal);
}

#[test]
fn order_sort_compares_keys_only() {
    let a: OrderSort<usize, f32> = OrderSort(0, 1, RelNodeInfo::default(), TempNodeType::Fixed);
    let mut info: RelNodeInfo<usize, f32> = RelNodeInfo::default();
    info.main = 99.0;
    let b: OrderSort<usize, f32> = OrderSort(0, 1, info, TempNodeType::AutoOk);
    let c: OrderSort<usize, f32> = OrderSort(-3, 7, RelNodeInfo::default(), TempNodeType::Fixed);
    assert!(a == b);
    assert_eq!(a.partial_cmp(&b), Some(Ordering::Equal));
    assert_eq!(c.partial_cmp(&a), Some(Ordering::Less));
    assert!(c < a);
    assert!(a > c);
}

#[test]
fn absolute_alignment_codes() {
    let mut flex: ContainerStyle<f32> = ContainerStyle::default();
    assert_eq!(abs_align(&flex, AlignSelf::Auto), (-1, -1));
    flex.justify_content = JustifyContent::Center;
    flex.align_items = AlignItems::FlexEnd;
    assert_eq!(abs_align(&flex, AlignSelf::Auto), (0, 1));
    assert_eq!(abs_align(&flex, AlignSelf::Center), (0, 0));
    flex.flex_direction = FlexDirection::Column;
    assert_eq!(abs_align(&flex, AlignSelf::Auto), (1, 0));
    flex.justify_content = JustifyContent::FlexEnd;
    assert_eq!(abs_align(&flex, AlignSelf::FlexEnd), (1, 1));
}

#[test]
fn cross_alignment_choice() {
    assert_eq!(cross_align(AlignSelf::Auto, AlignItems::FlexStart, true), CrossAlign::Start);
    assert_eq!(cross_align(AlignSelf::Auto, AlignItems::FlexEnd, false), CrossAlign::End);
    assert_eq!(cross_align(AlignSelf::Auto, AlignItems::Center, false), CrossAlign::Center);
    assert_eq!(cross_align(AlignSelf::Auto, AlignItems::Stretch, true), CrossAlign::Stretch);
    assert_eq!(cross_align(AlignSelf::Auto, AlignItems::Stretch, false), CrossAlign::Baseline);
    assert_eq!(cross_align(AlignSelf::FlexEnd, AlignItems::FlexStart, true), CrossAlign::End);
    assert_eq!(cross_align(AlignSelf::Stretch, AlignItems::FlexStart, true), CrossAlign::Stretch);
    assert_eq!(cross_align(AlignSelf::Baseline, AlignItems::Center, false), CrossAlign::Baseline);
}

#[test]
fn children_relayout_decision() {
    let flex: ContainerStyle<f32> = ContainerStyle::default();
    let s = |b: u32| NodeState::from_bits_truncate(b);
    assert!(children_relayout(s(CHILDREN_DIRTY), false, &flex));
    assert!(!children_relayout(s(0), false, &flex));
    assert!(children_relayout(s(0), true, &flex));
    assert!(!children_relayout(s(CHILDREN_RECT | CHILDREN_ABS), true, &flex));
    assert!(!children_relayout(s(CHILDREN_RECT | CHILDREN_NO_ALIGN_SELF), true, &flex));
    let mut wrap = flex.clone();
    wrap.flex_wrap = FlexWrap::Wrap;
    assert!(children_relayout(s(CHILDREN_RECT | CHILDREN_NO_ALIGN_SELF), true, &wrap));
    let mut reverse = flex.clone();
    reverse.flex_direction = FlexDirection::RowReverse;
    assert!(children_relayout(s(CHILDREN_RECT | CHILDREN_NO_ALIGN_SELF), true, &reverse));
    assert!(!children_relayout(s(CHILDREN_RECT | CHILDREN_ABS), true, &reverse));
}

#[test]
fn flex_item_info_from_style() {
    let mut s: Style<f32> = Style::default();
    s.size = Size { width: Dimension::Points(100.0), height: Dimension::Percent(0.5) };
    s.min_size = Size { width: Dimension::Points(120.0), height: Dimension::Undefined };
    s.margin = Rect { left: Dimension::Points(1.0), right: Dimension::Auto, top: Dimension::Percent(0.25), bottom: Dimension::Undefined };
    s.flex_grow = 2.0;
    let content = Size { width: 200.0f32, height: 80.0 };
    let (info, main, cross) = flex_item_info(7usize, &s, content, true, NodeState::from_bits_truncate(LINE_START_MARGIN_ZERO));
    assert_eq!((main, cross), (Number::Defined(100.0), Number::Defined(40.0)));
    assert_eq!(info.id, 7);
    assert_eq!(info.main, 120.0);
    assert_eq!(info.cross, 40.0);
    assert_eq!(info.grow, 2.0);
    assert_eq!(info.margin_main_start, Number::Defined(1.0));
    assert_eq!(info.margin_main_end, Number::Undefined);
    assert_eq!(info.margin_cross_start, Number::Defined(50.0));
    assert_eq!(info.margin_cross_end, Number::Defined(0.0));
    assert_eq!(info.min_main, Number::Defined(120.0));
    assert_eq!(info.max_main, Number::Undefined);
    assert_eq!(info.main_d, Dimension::Points(100.0));
    assert_eq!(info.cross_d, Dimension::Percent(0.5));
    assert!(info.line_start_margin_zero && !info.breakline);
    // a column takes the height as main size; a flex basis replaces it
    s.flex_basis = Dimension::Points(30.0);
    let (info, main, cross) = flex_item_info(7usize, &s, content, false, NodeState::from_bits_truncate(BREAK_LINE));
    assert_eq!((main, cross), (Number::Defined(30.0), Number::Defined(100.0)));
    assert_eq!(info.main, 30.0);
    assert_eq!(info.cross, 120.0);
    assert_eq!(info.main_d, Dimension::Points(30.0));
    assert_eq!(info.cross_d, Dimension::Points(100.0));
    assert_eq!(info.margin_main_start, Number::Defined(50.0));
    assert_eq!(info.margin_cross_start, Number::Defined(1.0));
    assert!(info.breakline && !info.line_start_margin_zero);
}
