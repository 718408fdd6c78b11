use core::ops::{Add, Sub};
use vstd::std_specs::ops::{AddSpec, SubSpec};
use vstd::prelude::*;
use crate::number::Number;
use crate::px::Px;

verus! {

/// The gaps on the four sides of a box.
#[derive(Debug, Copy, Clone, Default, PartialEq, Hash)]
pub struct SideGap<T: Default> {
    pub left: T,
    pub right: T,
    pub top: T,
    pub bottom: T,
}

/// A rectangle given by its four edges.
#[derive(Debug, Copy, Clone, Default, PartialEq, Hash)]
pub struct Rect<T: Default> {
    pub left: T,
    pub right: T,
    pub top: T,
    pub bottom: T,
}

/// A width and a height.
#[derive(Debug, Copy, Clone, Default, PartialEq, Hash)]
pub struct Size<T: Default> {
    pub width: T,
    pub height: T,
}

/// A point.
#[derive(Debug, Copy, Clone, PartialEq)]
pub struct Point<T> {
    pub x: T,
    pub y: T,
}

impl<T: Copy + Default + Add<Output = T>> SideGap<T> {
    /// The total gap along each axis: `right + left` wide and `bottom + top` high.
    pub fn gap_size(&self) -> (r: Size<T>)
        requires
            self.right.add_req(self.left),
            self.bottom.add_req(self.top),
        ensures
            T::obeys_add_spec() ==> r.width == self.right.add_spec(self.left),
            T::obeys_add_spec() ==> r.height == self.bottom.add_spec(self.top),
    {
        Size { width: self.right + self.left, height: self.bottom + self.top }
    }
}

impl<T: Copy + Default + Add<Output = T> + Sub<Output = T>> Rect<T> {
    /// The rectangle at (`left`, `top`) of the given width and height.
    pub fn new(left: T, top: T, width: T, height: T) -> (r: Rect<T>)
        requires
            left.add_req(width),
            top.add_req(height),
        ensures
            r.left == left,
            r.top == top,
            T::obeys_add_spec() ==> r.right == left.add_spec(width),
            T::obeys_add_spec() ==> r.bottom == top.add_spec(height),
    {
        Rect { left, right: left + width, top, bottom: top + height }
    }

    /// Width `right - left` and height `bottom - top`.
    pub fn size(&self) -> (r: Size<T>)
        requires
            self.right.sub_req(self.left),
            self.bottom.sub_req(self.top),
        ensures
            T::obeys_sub_spec() ==> r.width == self.right.sub_spec(self.left),
            T::obeys_sub_spec() ==> r.height == self.bottom.sub_spec(self.top),
    {
        Size { width: self.right - self.left, height: self.bottom - self.top }
    }

    /// The top-left corner.
    pub fn pos(&self) -> (r: Point<T>)
        ensures
            r == (Point { x: self.left, y: self.top }),
    {
        Point { x: self.left, y: self.top }
    }
}

/// A rectangle made at a position with a width and a height gives them back
/// as its size: with `Px` lengths, where the right and bottom edges are
/// defined, subtracting the left and top edges is defined and yields the
/// width and height.
pub proof fn lemma_rect_size_round_trip(left: Px, top: Px, width: Px, height: Px)
    requires
        left.add_req(width),
        top.add_req(height),
    ensures
        left.add_spec(width).sub_req(left),
        left.add_spec(width).sub_spec(left) == width,
        top.add_spec(height).sub_req(top),
        top.add_spec(height).sub_spec(top) == height,
{
}

impl<T: Default> Size<T> {
    /// The size of the given width and height.
    pub fn new(width: T, height: T) -> (r: Size<T>)
        ensures
            r == (Size { width, height }),
    {
        Size { width, height }
    }
}

impl Size<()> {
    /// A size whose width and height are both undefined.
    pub fn undefined<T>() -> (r: Size<Number<T>>)
        ensures
            r == (Size { width: Number::<T>::Undefined, height: Number::<T>::Undefined }),
    {
        Size { width: Number::Undefined, height: Number::Undefined }
    }
}

impl<T> Point<T> {
    /// The point at (`x`, `y`).
    pub fn new(x: T, y: T) -> (r: Point<T>)
        ensures
            r == (Point { x, y }),
    {
        Point { x, y }
    }
}

impl<T: Copy + Default + Add<Output = T>> Add for Size<T> {
    type Output = Self;

    fn add(self, other: Self) -> (r: Self) {
        Size { width: self.width + other.width, height: self.height + other.height }
    }
}

impl<T: Copy + Default + Add<Output = T>> vstd::std_specs::ops::AddSpecImpl for Size<T> {
    open spec fn obeys_add_spec() -> bool {
        T::obeys_add_spec()
    }

    open spec fn add_req(self, rhs: Self) -> bool {
        self.width.add_req(rhs.width) && self.height.add_req(rhs.height)
    }

    open spec fn add_spec(self, rhs: Self) -> Self {
        Size { width: self.width.add_spec(rhs.width), height: self.height.add_spec(rhs.height) }
    }
}

impl<T: Copy + Default + Sub<Output = T>> Sub for Size<T> {
    type Output = Self;

    fn sub(self, other: Self) -> (r: Self) {
        Size { width: self.width - other.width, height: self.height - other.height }
    }
}

impl<T: Copy + Default + Sub<Output = T>> vstd::std_specs::ops::SubSpecImpl for Size<T> {
    open spec fn obeys_sub_spec() -> bool {
        T::obeys_sub_spec()
    }

    open spec fn sub_req(self, rhs: Self) -> bool {
        self.width.sub_req(rhs.width) && self.height.sub_req(rhs.height)
    }

    open spec fn sub_spec(self, rhs: Self) -> Self {
        Size { width: self.width.sub_spec(rhs.width), height: self.height.sub_spec(rhs.height) }
    }
}

} // verus!
