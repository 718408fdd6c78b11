use vstd::prelude::*;
use crate::geometry::{Rect, SideGap, Size};
use crate::number::Number;
use crate::traits::{BoxStyle, FlexLayoutStyle};
use crate::style::{
    ContainerStyle, AlignContent, AlignItems, AlignSelf, Dimension, Direction, Display, FlexDirection, FlexWrap,
    JustifyContent, Overflow, OverflowWrap, PositionType,
};

verus! {

/// The style of a node, over the scalar type `T`.
#[derive(Clone, Debug, Default)]
pub struct Style<T: Default> {
    pub display: Display,
    pub position_type: PositionType,
    pub direction: Direction,
    pub flex_direction: FlexDirection,
    pub flex_wrap: FlexWrap,
    pub justify_content: JustifyContent,
    pub align_items: AlignItems,
    pub align_content: AlignContent,
    pub row_gap: T,
    pub column_gap: T,
    pub order: isize,
    pub flex_basis: Dimension<T>,
    pub flex_grow: T,
    pub flex_shrink: T,
    pub align_self: AlignSelf,
    pub overflow: Overflow,
    pub position: Rect<Dimension<T>>,
    pub padding: Rect<Dimension<T>>,
    pub border: Rect<Dimension<T>>,
    pub min_size: Size<Dimension<T>>,
    pub max_size: Size<Dimension<T>>,
    pub aspect_ratio: Number<T>,
    pub margin: Rect<Dimension<T>>,
    pub size: Size<Dimension<T>>,
    pub overflow_wrap: OverflowWrap,
    pub auto_reduce: bool,
}

/// The layout result of a node.
#[derive(Debug, Clone, Default)]
pub struct LayoutResult<T: Default> {
    pub rect: Rect<T>,
    pub border: SideGap<T>,
    pub padding: SideGap<T>,
    pub absolute: bool,
}

impl<T: Copy + Default> BoxStyle<T> for Style<T> {
    open spec fn margin_view(&self) -> SideGap<Dimension<T>> {
        SideGap { left: self.margin.left, right: self.margin.right, top: self.margin.top, bottom: self.margin.bottom }
    }

    open spec fn padding_view(&self) -> SideGap<Dimension<T>> {
        SideGap { left: self.padding.left, right: self.padding.right, top: self.padding.top, bottom: self.padding.bottom }
    }

    open spec fn position_view(&self) -> SideGap<Dimension<T>> {
        SideGap { left: self.position.left, right: self.position.right, top: self.position.top, bottom: self.position.bottom }
    }

    open spec fn border_view(&self) -> SideGap<Dimension<T>> {
        SideGap { left: self.border.left, right: self.border.right, top: self.border.top, bottom: self.border.bottom }
    }

    open spec fn size_view(&self) -> Size<Dimension<T>> {
        self.size
    }

    fn width(&self) -> (r: Dimension<T>)
        ensures
            r == self.size.width,
    {
        self.size.width
    }

    fn height(&self) -> (r: Dimension<T>)
        ensures
            r == self.size.height,
    {
        self.size.height
    }

    fn margin_top(&self) -> (r: Dimension<T>)
        ensures
            r == self.margin.top,
    {
        self.margin.top
    }

    fn margin_right(&self) -> (r: Dimension<T>)
        ensures
            r == self.margin.right,
    {
        self.margin.right
    }

    fn margin_bottom(&self) -> (r: Dimension<T>)
        ensures
            r == self.margin.bottom,
    {
        self.margin.bottom
    }

    fn margin_left(&self) -> (r: Dimension<T>)
        ensures
            r == self.margin.left,
    {
        self.margin.left
    }

    fn padding_top(&self) -> (r: Dimension<T>)
        ensures
            r == self.padding.top,
    {
        self.padding.top
    }

    fn padding_right(&self) -> (r: Dimension<T>)
        ensures
            r == self.padding.right,
    {
        self.padding.right
    }

    fn padding_bottom(&self) -> (r: Dimension<T>)
        ensures
            r == self.padding.bottom,
    {
        self.padding.bottom
    }

    fn padding_left(&self) -> (r: Dimension<T>)
        ensures
            r == self.padding.left,
    {
        self.padding.left
    }

    fn position_top(&self) -> (r: Dimension<T>)
        ensures
            r == self.position.top,
    {
        self.position.top
    }

    fn position_right(&self) -> (r: Dimension<T>)
        ensures
            r == self.position.right,
    {
        self.position.right
    }

    fn position_bottom(&self) -> (r: Dimension<T>)
        ensures
            r == self.position.bottom,
    {
        self.position.bottom
    }

    fn position_left(&self) -> (r: Dimension<T>)
        ensures
            r == self.position.left,
    {
        self.position.left
    }

    fn border_top(&self) -> (r: Dimension<T>)
        ensures
            r == self.border.top,
    {
        self.border.top
    }

    fn border_right(&self) -> (r: Dimension<T>)
        ensures
            r == self.border.right,
    {
        self.border.right
    }

    fn border_bottom(&self) -> (r: Dimension<T>)
        ensures
            r == self.border.bottom,
    {
        self.border.bottom
    }

    fn border_left(&self) -> (r: Dimension<T>)
        ensures
            r == self.border.left,
    {
        self.border.left
    }

    fn display(&self) -> (r: Display)
        ensures
            r == self.display,
    {
        self.display
    }

    fn position_type(&self) -> (r: PositionType)
        ensures
            r == self.position_type,
    {
        self.position_type
    }

    fn overflow(&self) -> (r: Overflow)
        ensures
            r == self.overflow,
    {
        self.overflow
    }

    fn min_width(&self) -> (r: Dimension<T>)
        ensures
            r == self.min_size.width,
    {
        self.min_size.width
    }

    fn min_height(&self) -> (r: Dimension<T>)
        ensures
            r == self.min_size.height,
    {
        self.min_size.height
    }

    fn max_width(&self) -> (r: Dimension<T>)
        ensures
            r == self.max_size.width,
    {
        self.max_size.width
    }

    fn max_height(&self) -> (r: Dimension<T>)
        ensures
            r == self.max_size.height,
    {
        self.max_size.height
    }

    fn aspect_ratio(&self) -> (r: Number<T>)
        ensures
            r == self.aspect_ratio,
    {
        self.aspect_ratio
    }

    fn overflow_wrap(&self) -> (r: OverflowWrap)
        ensures
            r == self.overflow_wrap,
    {
        self.overflow_wrap
    }

    fn auto_reduce(&self) -> (r: bool)
        ensures
            r == self.auto_reduce,
    {
        self.auto_reduce
    }

    fn margin(&self) -> (r: SideGap<Dimension<T>>)
        ensures
            r == (SideGap { left: self.margin.left, right: self.margin.right, top: self.margin.top, bottom: self.margin.bottom }),
    {
        SideGap { left: self.margin.left, right: self.margin.right, top: self.margin.top, bottom: self.margin.bottom }
    }

    fn padding(&self) -> (r: SideGap<Dimension<T>>)
        ensures
            r == (SideGap { left: self.padding.left, right: self.padding.right, top: self.padding.top, bottom: self.padding.bottom }),
    {
        SideGap { left: self.padding.left, right: self.padding.right, top: self.padding.top, bottom: self.padding.bottom }
    }

    fn position(&self) -> (r: SideGap<Dimension<T>>)
        ensures
            r == (SideGap { left: self.position.left, right: self.position.right, top: self.position.top, bottom: self.position.bottom }),
    {
        SideGap { left: self.position.left, right: self.position.right, top: self.position.top, bottom: self.position.bottom }
    }

    fn border(&self) -> (r: SideGap<Dimension<T>>)
        ensures
            r == (SideGap { left: self.border.left, right: self.border.right, top: self.border.top, bottom: self.border.bottom }),
    {
        SideGap { left: self.border.left, right: self.border.right, top: self.border.top, bottom: self.border.bottom }
    }

    fn size(&self) -> (r: Size<Dimension<T>>)
        ensures
            r == self.size,
    {
        self.size
    }
}

impl<T: Copy + Default> FlexLayoutStyle<T> for Style<T> {
    open spec fn container_view(&self) -> ContainerStyle<T> {
        ContainerStyle {
            flex_direction: self.flex_direction,
            flex_wrap: self.flex_wrap,
            justify_content: self.justify_content,
            align_items: self.align_items,
            align_content: self.align_content,
            row_gap: self.row_gap,
            column_gap: self.column_gap,
        }
    }

    fn direction(&self) -> (r: Direction)
        ensures
            r == self.direction,
    {
        self.direction
    }

    fn flex_direction(&self) -> (r: FlexDirection)
        ensures
            r == self.flex_direction,
    {
        self.flex_direction
    }

    fn flex_wrap(&self) -> (r: FlexWrap)
        ensures
            r == self.flex_wrap,
    {
        self.flex_wrap
    }

    fn justify_content(&self) -> (r: JustifyContent)
        ensures
            r == self.justify_content,
    {
        self.justify_content
    }

    fn align_items(&self) -> (r: AlignItems)
        ensures
            r == self.align_items,
    {
        self.align_items
    }

    fn align_content(&self) -> (r: AlignContent)
        ensures
            r == self.align_content,
    {
        self.align_content
    }

    fn row_gap(&self) -> (r: T)
        ensures
            r == self.row_gap,
    {
        self.row_gap
    }

    fn column_gap(&self) -> (r: T)
        ensures
            r == self.column_gap,
    {
        self.column_gap
    }

    fn order(&self) -> (r: isize)
        ensures
            r == self.order,
    {
        self.order
    }

    fn flex_basis(&self) -> (r: Dimension<T>)
        ensures
            r == self.flex_basis,
    {
        self.flex_basis
    }

    fn flex_grow(&self) -> (r: T)
        ensures
            r == self.flex_grow,
    {
        self.flex_grow
    }

    fn flex_shrink(&self) -> (r: T)
        ensures
            r == self.flex_shrink,
    {
        self.flex_shrink
    }

    fn align_self(&self) -> (r: AlignSelf)
        ensures
            r == self.align_self,
    {
        self.align_self
    }

    fn flex_container_style(&self) -> (r: ContainerStyle<T>)
        ensures
            r == (ContainerStyle {
                flex_direction: self.flex_direction,
                flex_wrap: self.flex_wrap,
                justify_content: self.justify_content,
                align_items: self.align_items,
                align_content: self.align_content,
                row_gap: self.row_gap,
                column_gap: self.column_gap,
            }),
    {
        ContainerStyle {
            flex_direction: self.flex_direction,
            flex_wrap: self.flex_wrap,
            justify_content: self.justify_content,
            align_items: self.align_items,
            align_content: self.align_content,
            row_gap: self.row_gap,
            column_gap: self.column_gap,
        }
    }
}

} // verus!
