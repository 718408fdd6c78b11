//! The interfaces through which layout reads styles and writes results.
use core::ops::Sub;
use vstd::prelude::*;
use vstd::std_specs::ops::SubSpec;
use crate::calc::sub_total;
use crate::geometry::{Rect, SideGap, Size};
use crate::layout_tree::LayoutResult;
use crate::number::Number;
use crate::style::{
    AlignContent, AlignItems, AlignSelf, ContainerStyle, Dimension, Direction, Display,
    FlexDirection, FlexWrap, JustifyContent, Overflow, OverflowWrap, PositionType,
};

verus! {

/// The layout result of a node, as the layout reads and writes it. Each
/// setter changes only its own property.
pub trait LayoutR<T: Default> {
    /// The node's rectangle, as a value.
    spec fn rect_view(&self) -> Rect<T>;

    /// The node's border widths, as a value.
    spec fn border_view(&self) -> SideGap<T>;

    /// The node's padding widths, as a value.
    spec fn padding_view(&self) -> SideGap<T>;

    /// Whether the node is absolutely positioned, as a value.
    spec fn absolute_view(&self) -> bool;

    /// The node's rectangle.
    fn rect(&self) -> (r: &Rect<T>)
        ensures
            *r == self.rect_view(),
    ;

    /// The node's border widths.
    fn border(&self) -> (r: &SideGap<T>)
        ensures
            *r == self.border_view(),
    ;

    /// The node's padding widths.
    fn padding(&self) -> (r: &SideGap<T>)
        ensures
            *r == self.padding_view(),
    ;

    /// The node is absolutely positioned.
    fn absolute(&self) -> (r: bool)
        ensures
            r == self.absolute_view(),
    ;

    /// Sets the rectangle.
    fn set_rect(&mut self, v: Rect<T>)
        ensures
            final(self).rect_view() == v,
            final(self).border_view() == old(self).border_view(),
            final(self).padding_view() == old(self).padding_view(),
            final(self).absolute_view() == old(self).absolute_view(),
    ;

    /// Sets the border widths.
    fn set_border(&mut self, v: SideGap<T>)
        ensures
            final(self).border_view() == v,
            final(self).rect_view() == old(self).rect_view(),
            final(self).padding_view() == old(self).padding_view(),
            final(self).absolute_view() == old(self).absolute_view(),
    ;

    /// Sets the padding widths.
    fn set_padding(&mut self, v: SideGap<T>)
        ensures
            final(self).padding_view() == v,
            final(self).rect_view() == old(self).rect_view(),
            final(self).border_view() == old(self).border_view(),
            final(self).absolute_view() == old(self).absolute_view(),
    ;

    /// Sets whether the node is absolutely positioned.
    fn set_absolute(&mut self, b: bool)
        ensures
            final(self).absolute_view() == b,
            final(self).rect_view() == old(self).rect_view(),
            final(self).border_view() == old(self).border_view(),
            final(self).padding_view() == old(self).padding_view(),
    ;

    /// Called once all the layout properties of the node are set.
    fn set_finish(&mut self);
}

/// The box properties of a node's style. Each side getter reads its side of
/// the corresponding view, and the size getters read the size view.
pub trait BoxStyle<T: Default> {
    /// The four margins, as a value.
    spec fn margin_view(&self) -> SideGap<Dimension<T>>;

    /// The four paddings, as a value.
    spec fn padding_view(&self) -> SideGap<Dimension<T>>;

    /// The four offsets, as a value.
    spec fn position_view(&self) -> SideGap<Dimension<T>>;

    /// The four borders, as a value.
    spec fn border_view(&self) -> SideGap<Dimension<T>>;

    /// The width and height, as a value.
    spec fn size_view(&self) -> Size<Dimension<T>>;

    fn width(&self) -> (r: Dimension<T>)
        ensures
            r == self.size_view().width,
    ;

    fn height(&self) -> (r: Dimension<T>)
        ensures
            r == self.size_view().height,
    ;

    fn margin_top(&self) -> (r: Dimension<T>)
        ensures
            r == self.margin_view().top,
    ;

    fn margin_right(&self) -> (r: Dimension<T>)
        ensures
            r == self.margin_view().right,
    ;

    fn margin_bottom(&self) -> (r: Dimension<T>)
        ensures
            r == self.margin_view().bottom,
    ;

    fn margin_left(&self) -> (r: Dimension<T>)
        ensures
            r == self.margin_view().left,
    ;

    fn padding_top(&self) -> (r: Dimension<T>)
        ensures
            r == self.padding_view().top,
    ;

    fn padding_right(&self) -> (r: Dimension<T>)
        ensures
            r == self.padding_view().right,
    ;

    fn padding_bottom(&self) -> (r: Dimension<T>)
        ensures
            r == self.padding_view().bottom,
    ;

    fn padding_left(&self) -> (r: Dimension<T>)
        ensures
            r == self.padding_view().left,
    ;

    fn position_top(&self) -> (r: Dimension<T>)
        ensures
            r == self.position_view().top,
    ;

    fn position_right(&self) -> (r: Dimension<T>)
        ensures
            r == self.position_view().right,
    ;

    fn position_bottom(&self) -> (r: Dimension<T>)
        ensures
            r == self.position_view().bottom,
    ;

    fn position_left(&self) -> (r: Dimension<T>)
        ensures
            r == self.position_view().left,
    ;

    fn border_top(&self) -> (r: Dimension<T>)
        ensures
            r == self.border_view().top,
    ;

    fn border_right(&self) -> (r: Dimension<T>)
        ensures
            r == self.border_view().right,
    ;

    fn border_bottom(&self) -> (r: Dimension<T>)
        ensures
            r == self.border_view().bottom,
    ;

    fn border_left(&self) -> (r: Dimension<T>)
        ensures
            r == self.border_view().left,
    ;

    fn display(&self) -> Display;

    fn position_type(&self) -> PositionType;

    fn overflow(&self) -> Overflow;

    fn min_width(&self) -> Dimension<T>;

    fn min_height(&self) -> Dimension<T>;

    fn max_width(&self) -> Dimension<T>;

    fn max_height(&self) -> Dimension<T>;

    fn aspect_ratio(&self) -> Number<T>;

    fn overflow_wrap(&self) -> OverflowWrap;

    fn auto_reduce(&self) -> bool;

    /// The four margins.
    fn margin(&self) -> (r: SideGap<Dimension<T>>)
        ensures
            r == self.margin_view(),
    {
        SideGap {
            left: self.margin_left(),
            right: self.margin_right(),
            top: self.margin_top(),
            bottom: self.margin_bottom(),
        }
    }

    /// The four paddings.
    fn padding(&self) -> (r: SideGap<Dimension<T>>)
        ensures
            r == self.padding_view(),
    {
        SideGap {
            left: self.padding_left(),
            right: self.padding_right(),
            top: self.padding_top(),
            bottom: self.padding_bottom(),
        }
    }

    /// The four offsets.
    fn position(&self) -> (r: SideGap<Dimension<T>>)
        ensures
            r == self.position_view(),
    {
        SideGap {
            left: self.position_left(),
            right: self.position_right(),
            top: self.position_top(),
            bottom: self.position_bottom(),
        }
    }

    /// The four borders.
    fn border(&self) -> (r: SideGap<Dimension<T>>)
        ensures
            r == self.border_view(),
    {
        SideGap {
            left: self.border_left(),
            right: self.border_right(),
            top: self.border_top(),
            bottom: self.border_bottom(),
        }
    }

    /// The width and height.
    fn size(&self) -> (r: Size<Dimension<T>>)
        ensures
            r == self.size_view(),
    {
        Size { width: self.width(), height: self.height() }
    }
}

/// The flex properties of a node's style. The container getters read their
/// property of the container view.
pub trait FlexLayoutStyle<T: Default>: BoxStyle<T> {
    /// The container properties, as a value.
    spec fn container_view(&self) -> ContainerStyle<T>;

    fn direction(&self) -> Direction;

    fn flex_direction(&self) -> (r: FlexDirection)
        ensures
            r == self.container_view().flex_direction,
    ;

    fn flex_wrap(&self) -> (r: FlexWrap)
        ensures
            r == self.container_view().flex_wrap,
    ;

    fn justify_content(&self) -> (r: JustifyContent)
        ensures
            r == self.container_view().justify_content,
    ;

    fn align_items(&self) -> (r: AlignItems)
        ensures
            r == self.container_view().align_items,
    ;

    fn align_content(&self) -> (r: AlignContent)
        ensures
            r == self.container_view().align_content,
    ;

    fn row_gap(&self) -> (r: T)
        ensures
            r == self.container_view().row_gap,
    ;

    fn column_gap(&self) -> (r: T)
        ensures
            r == self.container_view().column_gap,
    ;

    fn order(&self) -> isize;

    fn flex_basis(&self) -> Dimension<T>;

    fn flex_grow(&self) -> T;

    fn flex_shrink(&self) -> T;

    fn align_self(&self) -> AlignSelf;

    /// The container properties.
    fn flex_container_style(&self) -> (r: ContainerStyle<T>)
        ensures
            r == self.container_view(),
    {
        ContainerStyle {
            flex_direction: self.flex_direction(),
            flex_wrap: self.flex_wrap(),
            justify_content: self.justify_content(),
            align_items: self.align_items(),
            align_content: self.align_content(),
            row_gap: self.row_gap(),
            column_gap: self.column_gap(),
        }
    }
}

/// Reading a value by key.
pub trait Get<K> {
    type Target;

    /// The value of key `k`.
    fn get(&self, k: K) -> Self::Target;
}

/// Reading a value by key for writing.
pub trait GetMut<K> {
    type Target;

    /// The value of key `k`.
    fn get_mut(&mut self, k: K) -> Self::Target;
}

impl<T: Default> LayoutR<T> for LayoutResult<T> {
    open spec fn rect_view(&self) -> Rect<T> {
        self.rect
    }

    open spec fn border_view(&self) -> SideGap<T> {
        self.border
    }

    open spec fn padding_view(&self) -> SideGap<T> {
        self.padding
    }

    open spec fn absolute_view(&self) -> bool {
        self.absolute
    }

    fn rect(&self) -> (r: &Rect<T>) {
        &self.rect
    }

    fn border(&self) -> (r: &SideGap<T>) {
        &self.border
    }

    fn padding(&self) -> (r: &SideGap<T>) {
        &self.padding
    }

    fn absolute(&self) -> (r: bool) {
        self.absolute
    }

    fn set_rect(&mut self, v: Rect<T>)
        ensures
            *final(self) == (LayoutResult { rect: v, ..*old(self) }),
    {
        self.rect = v;
    }

    fn set_border(&mut self, v: SideGap<T>)
        ensures
            *final(self) == (LayoutResult { border: v, ..*old(self) }),
    {
        self.border = v;
    }

    fn set_padding(&mut self, v: SideGap<T>)
        ensures
            *final(self) == (LayoutResult { padding: v, ..*old(self) }),
    {
        self.padding = v;
    }

    fn set_absolute(&mut self, b: bool)
        ensures
            *final(self) == (LayoutResult { absolute: b, ..*old(self) }),
    {
        self.absolute = b;
    }

    fn set_finish(&mut self)
        ensures
            *final(self) == *old(self),
    {
    }
}

/// The content box of a node: its rectangle less its border and padding on
/// each side.
pub open spec fn content_box<T: Default + Sub<Output = T>>(rect: Rect<T>, border: SideGap<T>, padding: SideGap<T>) -> Size<T> {
    Size {
        width: rect.right.sub_spec(border.right).sub_spec(padding.right).sub_spec(rect.left).sub_spec(border.left).sub_spec(padding.left),
        height: rect.bottom.sub_spec(border.bottom).sub_spec(padding.bottom).sub_spec(rect.top).sub_spec(border.top).sub_spec(padding.top),
    }
}

/// The padding box of a node: its rectangle less its border on each side.
pub open spec fn padding_box<T: Default + Sub<Output = T>>(rect: Rect<T>, border: SideGap<T>) -> Size<T> {
    Size {
        width: rect.right.sub_spec(border.right).sub_spec(rect.left).sub_spec(border.left),
        height: rect.bottom.sub_spec(border.bottom).sub_spec(rect.top).sub_spec(border.top),
    }
}

/// The subtractions of `content_box` are defined.
pub open spec fn content_box_req<T: Default + Sub<Output = T>>(rect: Rect<T>, border: SideGap<T>, padding: SideGap<T>) -> bool {
    let w1 = rect.right.sub_spec(border.right);
    let w2 = w1.sub_spec(padding.right);
    let w3 = w2.sub_spec(rect.left);
    let w4 = w3.sub_spec(border.left);
    let h1 = rect.bottom.sub_spec(border.bottom);
    let h2 = h1.sub_spec(padding.bottom);
    let h3 = h2.sub_spec(rect.top);
    let h4 = h3.sub_spec(border.top);
    &&& rect.right.sub_req(border.right) && w1.sub_req(padding.right) && w2.sub_req(rect.left)
    &&& w3.sub_req(border.left) && w4.sub_req(padding.left)
    &&& rect.bottom.sub_req(border.bottom) && h1.sub_req(padding.bottom) && h2.sub_req(rect.top)
    &&& h3.sub_req(border.top) && h4.sub_req(padding.top)
}

/// The subtractions of `padding_box` are defined.
pub open spec fn padding_box_req<T: Default + Sub<Output = T>>(rect: Rect<T>, border: SideGap<T>) -> bool {
    let w1 = rect.right.sub_spec(border.right);
    let w2 = w1.sub_spec(rect.left);
    let h1 = rect.bottom.sub_spec(border.bottom);
    let h2 = h1.sub_spec(rect.top);
    &&& rect.right.sub_req(border.right) && w1.sub_req(rect.left) && w2.sub_req(border.left)
    &&& rect.bottom.sub_req(border.bottom) && h1.sub_req(rect.top) && h2.sub_req(border.top)
}

/// The content box is the padding box less the padding on each side: with
/// `i64` edges, where the subtractions of both boxes are defined, the
/// content width is the padding width less the left and right padding, and
/// the content height the padding height less the top and bottom padding.
pub proof fn lemma_content_box_in_padding_box(rect: Rect<i64>, border: SideGap<i64>, padding: SideGap<i64>)
    requires
        content_box_req(rect, border, padding),
        padding_box_req(rect, border),
    ensures
        content_box(rect, border, padding).width == padding_box(rect, border).width - padding.left - padding.right,
        content_box(rect, border, padding).height == padding_box(rect, border).height - padding.top - padding.bottom,
{
}

/// The containing block of a relatively positioned child: the parent's content box.
pub fn rel_containing_block_size<T: Copy + Default + Sub<Output = T>, L: LayoutR<T>>(l: &L) -> (r: Size<T>)
    requires
        (T::obeys_sub_spec() && content_box_req(l.rect_view(), l.border_view(), l.padding_view())) || sub_total::<T>(),
    ensures
        T::obeys_sub_spec() ==> r == content_box(l.rect_view(), l.border_view(), l.padding_view()),
{
    let rect = l.rect();
    let border = l.border();
    let padding = l.padding();
    Size::new(
        rect.right - border.right - padding.right - rect.left - border.left - padding.left,
        rect.bottom - border.bottom - padding.bottom - rect.top - border.top - padding.top,
    )
}

/// The containing block of an absolutely positioned child: the parent's padding box.
pub fn abs_containing_block_size<T: Copy + Default + Sub<Output = T>, L: LayoutR<T>>(l: &L) -> (r: Size<T>)
    requires
        (T::obeys_sub_spec() && padding_box_req(l.rect_view(), l.border_view())) || sub_total::<T>(),
    ensures
        T::obeys_sub_spec() ==> r == padding_box(l.rect_view(), l.border_view()),
{
    let rect = l.rect();
    let border = l.border();
    Size::new(rect.right - border.right - rect.left - border.left, rect.bottom - border.bottom - rect.top - border.top)
}

} // verus!
