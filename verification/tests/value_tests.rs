use pi_flex_layout::geometry::{Point, Rect, SideGap, Size};
use pi_flex_layout::layout_tree::{LayoutResult, Style};
use pi_flex_layout::number::{Number, OrElse};
use pi_flex_layout::style::{
    AlignContent, AlignItems, ContainerStyle, Dimension, Display, FlexDirection, FlexWrap,
    JustifyContent, OverflowWrap, PositionType,
};
use pi_flex_layout::traits::{abs_containing_block_size, rel_containing_block_size, BoxStyle, FlexLayoutStyle, LayoutR};

#[test]
fn gap_size_sums_opposite_sides() {
    let g = SideGap { left: 1.0f32, right: 2.0, top: 3.0, bottom: 4.5 };
    assert_eq!(g.gap_size(), Size { width: 3.0, height: 7.5 });
    let gi = SideGap { left: 10i64, right: -4, top: 0, bottom: 7 };
    assert_eq!(gi.gap_size(), Size { width: 6, height: 7 });
}

#[test]
fn rect_new_size_and_pos() {
    let r = Rect::new(10.0f32, 20.0, 30.0, 40.0);
    assert_eq!(r, Rect { left: 10.0, right: 40.0, top: 20.0, bottom: 60.0 });
    assert_eq!(r.size(), Size { width: 30.0, height: 40.0 });
    assert_eq!(r.pos(), Point { x: 10.0, y: 20.0 });
    let ri = Rect { left: 5i64, right: 2, top: 1, bottom: 11 };
    assert_eq!(ri.size(), Size { width: -3, height: 10 });
}

#[test]
fn size_and_point_constructors() {
    assert_eq!(Size::new(1.5f32, 2.5), Size { width: 1.5, height: 2.5 });
    assert_eq!(Point::new(3i64, -4), Point { x: 3, y: -4 });
    let u = Size::undefined::<f32>();
    assert_eq!(u.width, Number::Undefined);
    assert_eq!(u.height, Number::Undefined);
}

#[test]
fn size_add_and_sub() {
    let a = Size { width: 10.0f32, height: 4.0 };
    let b = Size { width: 2.5f32, height: 1.0 };
    assert_eq!(a + b, Size { width: 12.5, height: 5.0 });
    assert_eq!(a - b, Size { width: 7.5, height: 3.0 });
}

#[test]
fn number_or_else_and_defined() {
    let d: Number<f32> = Number::Defined(3.0);
    let u: Number<f32> = Number::Undefined;
    assert_eq!(d.or_else(7.0f32), 3.0);
    assert_eq!(u.or_else(7.0f32), 7.0);
    assert_eq!(d.or_else(Number::Defined(9.0f32)), Number::Defined(3.0));
    assert_eq!(u.or_else(Number::Defined(9.0f32)), Number::Defined(9.0));
    assert_eq!(u.or_else(Number::<f32>::Undefined), Number::Undefined);
    assert!(d.is_defined());
    assert!(!u.is_defined());
    assert_eq!(Number::<f32>::default(), Number::Undefined);
}

#[test]
fn dimension_predicates() {
    let p: Dimension<f32> = Dimension::Points(5.0);
    let c: Dimension<f32> = Dimension::Percent(0.5);
    let a: Dimension<f32> = Dimension::Auto;
    let u: Dimension<f32> = Dimension::Undefined;
    assert!(p.is_defined() && c.is_defined() && !a.is_defined() && !u.is_defined());
    assert!(!p.is_undefined() && !c.is_undefined() && a.is_undefined() && u.is_undefined());
    assert!(p.is_points() && !c.is_points() && !a.is_points());
}

#[test]
fn dimension_resolves_against_parent() {
    assert_eq!(Dimension::Points(5.0f32).resolve_value(200.0), 5.0);
    assert_eq!(Dimension::Percent(0.25f32).resolve_value(200.0), 50.0);
    assert_eq!(Dimension::<f32>::Auto.resolve_value(200.0), 0.0);
    assert_eq!(Dimension::<f32>::Undefined.resolve_value(200.0), 0.0);
    assert_eq!(Dimension::Percent(3i64).resolve_value(7), 21);
}

#[test]
fn flex_direction_axes() {
    assert!(FlexDirection::Row.is_row());
    assert!(FlexDirection::RowReverse.is_row());
    assert!(!FlexDirection::Column.is_row());
    assert!(!FlexDirection::ColumnReverse.is_row());
    assert!(FlexDirection::RowReverse.is_reverse());
    assert!(FlexDirection::ColumnReverse.is_reverse());
    assert!(!FlexDirection::Row.is_reverse());
    assert!(!FlexDirection::Column.is_reverse());
}

#[test]
fn container_style_default() {
    let c: ContainerStyle<f32> = ContainerStyle::default();
    assert_eq!(c.flex_direction, FlexDirection::Row);
    assert_eq!(c.flex_wrap, FlexWrap::NoWrap);
    assert_eq!(c.justify_content, JustifyContent::FlexStart);
    assert_eq!(c.align_items, AlignItems::FlexStart);
    assert_eq!(c.align_content, AlignContent::Stretch);
    assert_eq!(c.row_gap, 0.0);
}

#[test]
fn style_getters_read_the_fields() {
    let mut s: Style<f32> = Style::default();
    s.size = Size { width: Dimension::Points(100.0), height: Dimension::Percent(0.5) };
    s.margin = Rect { left: Dimension::Points(1.0), right: Dimension::Points(2.0), top: Dimension::Points(3.0), bottom: Dimension::Auto };
    s.padding = Rect { left: Dimension::Points(4.0), right: Dimension::Undefined, top: Dimension::Points(5.0), bottom: Dimension::Points(6.0) };
    s.border = Rect { left: Dimension::Points(7.0), right: Dimension::Points(8.0), top: Dimension::Undefined, bottom: Dimension::Points(9.0) };
    s.position = Rect { left: Dimension::Percent(0.1), right: Dimension::Auto, top: Dimension::Points(11.0), bottom: Dimension::Undefined };
    s.display = Display::Hidden;
    s.position_type = PositionType::Absolute;
    s.flex_direction = FlexDirection::Column;
    s.flex_wrap = FlexWrap::Wrap;
    s.row_gap = 2.0;
    s.column_gap = 3.0;
    s.flex_grow = 1.5;
    s.flex_shrink = 0.5;
    s.order = -2;
    s.overflow_wrap = OverflowWrap::Anywhere;
    s.auto_reduce = true;
    s.min_size = Size { width: Dimension::Points(10.0), height: Dimension::Undefined };
    s.max_size = Size { width: Dimension::Undefined, height: Dimension::Points(300.0) };
    s.aspect_ratio = Number::Defined(2.0);
    assert_eq!(s.width(), Dimension::Points(100.0));
    assert_eq!(s.height(), Dimension::Percent(0.5));
    assert_eq!(s.margin(), SideGap { left: Dimension::Points(1.0), right: Dimension::Points(2.0), top: Dimension::Points(3.0), bottom: Dimension::Auto });
    assert_eq!(s.padding(), SideGap { left: Dimension::Points(4.0), right: Dimension::Undefined, top: Dimension::Points(5.0), bottom: Dimension::Points(6.0) });
    assert_eq!(s.border(), SideGap { left: Dimension::Points(7.0), right: Dimension::Points(8.0), top: Dimension::Undefined, bottom: Dimension::Points(9.0) });
    assert_eq!(s.position(), SideGap { left: Dimension::Percent(0.1), right: Dimension::Auto, top: Dimension::Points(11.0), bottom: Dimension::Undefined });
    assert_eq!(s.size(), Size { width: Dimension::Points(100.0), height: Dimension::Percent(0.5) });
    assert_eq!(s.display(), Display::Hidden);
    assert_eq!(s.position_type(), PositionType::Absolute);
    assert_eq!(s.min_width(), Dimension::Points(10.0));
    assert_eq!(s.max_height(), Dimension::Points(300.0));
    assert_eq!(s.aspect_ratio(), Number::Defined(2.0));
    assert_eq!(s.overflow_wrap(), OverflowWrap::Anywhere);
    assert!(s.auto_reduce());
    assert_eq!(s.order(), -2);
    assert_eq!(s.flex_grow(), 1.5);
    assert_eq!(s.flex_shrink(), 0.5);
    let c = s.flex_container_style();
    assert_eq!(c.flex_direction, FlexDirection::Column);
    assert_eq!(c.flex_wrap, FlexWrap::Wrap);
    assert_eq!(c.row_gap, 2.0);
    assert_eq!(c.column_gap, 3.0);
}

#[test]
fn layout_result_reads_and_writes() {
    let mut r: LayoutResult<f32> = LayoutResult::default();
    r.set_rect(Rect { left: 1.0, right: 2.0, top: 3.0, bottom: 4.0 });
    r.set_border(SideGap { left: 1.0, right: 1.0, top: 0.0, bottom: 0.0 });
    r.set_padding(SideGap { left: 0.0, right: 2.0, top: 2.0, bottom: 0.0 });
    r.set_absolute(true);
    r.set_finish();
    assert_eq!(*LayoutR::rect(&r), Rect { left: 1.0, right: 2.0, top: 3.0, bottom: 4.0 });
    assert_eq!(*LayoutR::border(&r), SideGap { left: 1.0, right: 1.0, top: 0.0, bottom: 0.0 });
    assert_eq!(*LayoutR::padding(&r), SideGap { left: 0.0, right: 2.0, top: 2.0, bottom: 0.0 });
    assert!(LayoutR::absolute(&r));
}

#[test]
fn containing_blocks_of_a_node() {
    let r = LayoutResult {
        rect: Rect { left: 0.0f32, right: 100.0, top: 0.0, bottom: 50.0 },
        border: SideGap { left: 1.0, right: 2.0, top: 3.0, bottom: 4.0 },
        padding: SideGap { left: 5.0, right: 6.0, top: 7.0, bottom: 8.0 },
        absolute: false,
    };
    assert_eq!(rel_containing_block_size(&r), Size { width: 86.0, height: 28.0 });
    assert_eq!(abs_containing_block_size(&r), Size { width: 97.0, height: 43.0 });
}

#[test]
fn content_box_is_padding_box_less_padding() {
    let r = LayoutResult {
        rect: Rect { left: -20i64, right: 100, top: 4, bottom: 50 },
        border: SideGap { left: 1, right: 2, top: 3, bottom: 4 },
        padding: SideGap { left: 5, right: 6, top: 7, bottom: 8 },
        absolute: false,
    };
    let content = rel_containing_block_size(&r);
    let padding_box = abs_containing_block_size(&r);
    assert_eq!(content.width, padding_box.width - 5 - 6);
    assert_eq!(content.height, padding_box.height - 7 - 8);
    assert_eq!(content, Size { width: 106, height: 24 });
}
