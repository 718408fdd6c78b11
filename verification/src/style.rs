use core::convert::From;
use core::ops::Mul;
use vstd::prelude::*;
use vstd::std_specs::convert::FromSpec;
use vstd::std_specs::ops::MulSpec;

verus! {

/// How the items of a line are placed on the cross axis.
#[derive(Copy, Clone, Default, PartialEq, Eq, Structural, PartialOrd, Debug)]
pub enum AlignItems {
    #[default]
    FlexStart,
    FlexEnd,
    Center,
    Baseline,
    Stretch,
}

/// An item's own cross-axis alignment; `Auto` defers to `AlignItems`.
#[derive(Copy, Clone, Default, PartialEq, Eq, Structural, PartialOrd, Debug)]
pub enum AlignSelf {
    #[default]
    Auto,
    FlexStart,
    FlexEnd,
    Center,
    Baseline,
    Stretch,
}

/// How the lines of a wrapping container are placed on the cross axis.
#[derive(Copy, Clone, Default, PartialEq, Eq, Structural, PartialOrd, Debug)]
pub enum AlignContent {
    FlexStart,
    FlexEnd,
    Center,
    #[default]
    Stretch,
    SpaceBetween,
    SpaceAround,
}

/// Direction of the children; `RTL` walks them from the last one.
#[derive(Copy, Clone, Default, PartialEq, Eq, Structural, Debug)]
pub enum Direction {
    #[default]
    Inherit,
    LTR,
    RTL,
}

/// Display mode; `Hidden` (CSS `display: none`) takes the node out of the layout.
#[derive(Copy, Clone, Default, PartialEq, Eq, Structural, Debug)]
pub enum Display {
    #[default]
    Flex,
    Grid,
    Hidden,
}

/// The main axis of a flex container.
#[derive(Copy, Clone, Default, PartialEq, Eq, Structural, PartialOrd, Debug)]
pub enum FlexDirection {
    #[default]
    Row,
    Column,
    RowReverse,
    ColumnReverse,
}

/// The main axis of the direction is horizontal.
pub open spec fn row_direction(d: FlexDirection) -> bool {
    d == FlexDirection::Row || d == FlexDirection::RowReverse
}

impl FlexDirection {
    /// The main axis is horizontal.
    pub fn is_row(self) -> (r: bool)
        ensures
            r == row_direction(self),
    {
        self == FlexDirection::Row || self == FlexDirection::RowReverse
    }

    /// Items run from the end of the main axis.
    pub fn is_reverse(self) -> (r: bool)
        ensures
            r == (self == FlexDirection::RowReverse || self == FlexDirection::ColumnReverse),
    {
        self == FlexDirection::RowReverse || self == FlexDirection::ColumnReverse
    }
}

/// How the items of a line are placed on the main axis.
#[derive(Copy, Clone, Default, PartialEq, Eq, Structural, PartialOrd, Debug)]
pub enum JustifyContent {
    #[default]
    FlexStart,
    FlexEnd,
    Center,
    SpaceBetween,
    SpaceAround,
    SpaceEvenly,
}

/// What happens to content that overflows.
#[derive(Copy, Clone, Default, PartialEq, Eq, Structural, Debug)]
pub enum Overflow {
    #[default]
    Visible,
    Hidden,
    Scroll,
}

/// How a node is positioned.
#[derive(Copy, Clone, Default, PartialEq, Eq, Structural, Debug)]
pub enum PositionType {
    #[default]
    Relative,
    Absolute,
    Fixed,
}

/// Whether the items wrap onto several lines.
#[derive(Copy, Clone, Default, PartialEq, Eq, Structural, PartialOrd, Debug)]
pub enum FlexWrap {
    #[default]
    NoWrap,
    Wrap,
    WrapReverse,
}

/// A length: undefined, automatic, in points or a fraction of the parent.
#[derive(Copy, Clone, Default, PartialEq, PartialOrd, Debug)]
pub enum Dimension<T> {
    #[default]
    Undefined,
    Auto,
    Points(T),
    Percent(T),
}

/// A length resolved against the parent length: points as they are, a
/// percentage as `parent * percent`, anything else as zero.
pub open spec fn resolve_spec<T: Mul<Output = T> + From<u8>>(d: Dimension<T>, parent: T) -> T {
    match d {
        Dimension::Points(p) => p,
        Dimension::Percent(p) => parent.mul_spec(p),
        _ => T::from_spec(0u8),
    }
}

/// The multiplication of `resolve_spec` is defined.
pub open spec fn resolve_req<T: Mul<Output = T>>(d: Dimension<T>, parent: T) -> bool {
    d matches Dimension::Percent(p) ==> parent.mul_req(p)
}

impl<T: Copy + Mul<Output = T> + From<u8>> Dimension<T> {
    /// Resolves the length against `parent` (see `resolve_spec`).
    pub fn resolve_value(self, parent: T) -> (r: T)
        requires
            resolve_req(self, parent),
        ensures
            self matches Dimension::Points(p) ==> r == p,
            T::obeys_mul_spec() && T::obeys_from_spec() ==> r == resolve_spec(self, parent),
    {
        if let Dimension::Points(points) = self {
            points
        } else if let Dimension::Percent(percent) = self {
            parent * percent
        } else {
            T::from(0u8)
        }
    }
}

impl<T: Copy> Dimension<T> {
    /// In points or in percent.
    pub fn is_defined(self) -> (r: bool)
        ensures
            r == (self is Points || self is Percent),
    {
        if let Dimension::Points(_) = self {
            true
        } else if let Dimension::Percent(_) = self {
            true
        } else {
            false
        }
    }

    /// Neither in points nor in percent.
    pub fn is_undefined(self) -> (r: bool)
        ensures
            r == !(self is Points || self is Percent),
    {
        if let Dimension::Points(_) = self {
            false
        } else if let Dimension::Percent(_) = self {
            false
        } else {
            true
        }
    }

    /// In points.
    pub fn is_points(self) -> (r: bool)
        ensures
            r == (self is Points),
    {
        if let Dimension::Points(_) = self {
            true
        } else {
            false
        }
    }
}

/// Whether a string that cannot otherwise be broken may break to avoid overflow.
#[derive(Debug, Clone, Copy, Default, PartialEq, Eq, Structural)]
pub enum OverflowWrap {
    #[default]
    Normal,
    Anywhere,
    BreakWord,
}

/// The container properties of a flex node.
#[derive(Clone, PartialEq, PartialOrd, Debug)]
pub struct ContainerStyle<T> {
    pub flex_direction: FlexDirection,
    pub flex_wrap: FlexWrap,
    pub justify_content: JustifyContent,
    pub align_items: AlignItems,
    pub align_content: AlignContent,
    pub row_gap: T,
    pub column_gap: T,
}

impl<T: Default> Default for ContainerStyle<T> {
    /// A row that does not wrap, items and lines at the start, lines
    /// stretched, gaps at `T`'s default.
    fn default() -> (r: Self)
        ensures
            r.flex_direction == FlexDirection::Row,
            r.flex_wrap == FlexWrap::NoWrap,
            r.justify_content == JustifyContent::FlexStart,
            r.align_items == AlignItems::FlexStart,
            r.align_content == AlignContent::Stretch,
    {
        ContainerStyle {
            flex_direction: FlexDirection::Row,
            flex_wrap: FlexWrap::NoWrap,
            justify_content: JustifyContent::FlexStart,
            align_items: AlignItems::FlexStart,
            align_content: AlignContent::Stretch,
            row_gap: T::default(),
            column_gap: T::default(),
        }
    }
}
} // verus!
