use vstd::prelude::*;
use core::convert::From;
use core::ops::Mul;
use vstd::std_specs::convert::FromSpec;
use vstd::std_specs::cmp::PartialOrdSpec;
use vstd::std_specs::ops::MulSpec;
use crate::calc::{
    RelNodeInfo, axes, calc_location_number, calc_location_number_spec, calc_number, calc_number_spec,
    main_cross, min_max_calc, min_max_spec, num_or, zero,
};
use crate::geometry::Size;
use crate::px::Px;
use crate::layout_tree::Style;
use crate::node_state::{
    NodeState, has_flags, lemma_flags_known, ABS, BREAK_LINE, CHILDREN_DIRTY, CHILDREN_RECT, CHILDREN_ABS,
    CHILDREN_INDEX, CHILDREN_NO_ALIGN_SELF, LINE_START_MARGIN_ZERO, SELF_RECT, VNODE,
};
use crate::number::{Number, OrElse};
use crate::style::{AlignItems, AlignSelf, ContainerStyle, FlexDirection, FlexWrap, JustifyContent, resolve_req};

verus! {

/// Alignment code of an absolutely positioned node along one axis: 0 centred,
/// 1 at the end, -1 at the start.
pub open spec fn justify_code(j: JustifyContent) -> isize {
    if j == JustifyContent::Center {
        0isize
    } else if j == JustifyContent::FlexEnd {
        1isize
    } else {
        -1isize
    }
}

/// The cross-axis alignment code: from the container's `align_items`, unless
/// the node's own `align_self` centres it or puts it at the end.
pub open spec fn cross_code(align_items: AlignItems, align_self: AlignSelf) -> isize {
    if align_self == AlignSelf::Center {
        0isize
    } else if align_self == AlignSelf::FlexEnd {
        1isize
    } else if align_items == AlignItems::Center {
        0isize
    } else if align_items == AlignItems::FlexEnd {
        1isize
    } else {
        -1isize
    }
}

/// An absolutely positioned node follows its container's alignment: on the
/// main axis `justify_content` centres it (0) or puts it at the end (1) and
/// any other value at the start (-1); on the cross axis its own `align_self`
/// centres it or puts it at the end whatever `align_items` says, and
/// otherwise `align_items` decides in the same way.
pub proof fn lemma_abs_codes_follow_alignment(j: JustifyContent, align_items: AlignItems, align_self: AlignSelf)
    ensures
        (justify_code(j) == 0) == (j == JustifyContent::Center),
        (justify_code(j) == 1) == (j == JustifyContent::FlexEnd),
        (justify_code(j) == -1) == (j != JustifyContent::Center && j != JustifyContent::FlexEnd),
        (cross_code(align_items, align_self) == 0) == (align_self == AlignSelf::Center
            || (align_self != AlignSelf::FlexEnd && align_items == AlignItems::Center)),
        (cross_code(align_items, align_self) == 1) == (align_self == AlignSelf::FlexEnd
            || (align_self != AlignSelf::Center && align_items == AlignItems::FlexEnd)),
        (cross_code(align_items, align_self) == -1) == (align_self != AlignSelf::Center
            && align_self != AlignSelf::FlexEnd && align_items != AlignItems::Center
            && align_items != AlignItems::FlexEnd),
{
}

/// How an absolutely positioned node without explicit offsets is aligned
/// horizontally and vertically (0 centred, 1 at the end, -1 at the start): the
/// main-axis code comes from `justify_content`, the cross-axis code from
/// `align_items` and `align_self`; a column container swaps them.
pub fn abs_align<T>(flex: &ContainerStyle<T>, align_self: AlignSelf) -> (r: (isize, isize))
    ensures
        r == (if flex.flex_direction == FlexDirection::Row || flex.flex_direction == FlexDirection::RowReverse {
            (justify_code(flex.justify_content), cross_code(flex.align_items, align_self))
        } else {
            (cross_code(flex.align_items, align_self), justify_code(flex.justify_content))
        }),
{
    let a1: isize = if JustifyContent::Center == flex.justify_content {
        0
    } else if JustifyContent::FlexEnd == flex.justify_content {
        1
    } else {
        -1
    };
    let mut a2: isize = if AlignItems::Center == flex.align_items {
        0
    } else if AlignItems::FlexEnd == flex.align_items {
        1
    } else {
        -1
    };
    if AlignSelf::Center == align_self {
        a2 = 0;
    } else if AlignSelf::FlexEnd == align_self {
        a2 = 1;
    }
    if flex.flex_direction.is_row() {
        (a1, a2)
    } else {
        (a2, a1)
    }
}

/// How a flex item is placed on the cross axis of its line.
#[derive(Clone, Copy, Debug, PartialEq, Eq, Structural)]
pub enum CrossAlign {
    /// At the start, after its start margin.
    Start,
    /// At the end, before its end margin.
    End,
    /// Centred between its margins.
    Center,
    /// Stretched over the line between its margins.
    Stretch,
    /// On the line's baseline.
    Baseline,
}

/// The cross-axis placement of an item: its own `align_self`, or the
/// container's `align_items` for `Auto`; a stretch or baseline request
/// stretches an item whose cross size is undefined and aligns it on the
/// baseline otherwise.
pub open spec fn cross_align_spec(align_self: AlignSelf, align_items: AlignItems, cross_undefined: bool) -> CrossAlign {
    let start = if align_self == AlignSelf::Auto {
        align_items == AlignItems::FlexStart
    } else {
        align_self == AlignSelf::FlexStart
    };
    let end = if align_self == AlignSelf::Auto {
        align_items == AlignItems::FlexEnd
    } else {
        align_self == AlignSelf::FlexEnd
    };
    let center = if align_self == AlignSelf::Auto {
        align_items == AlignItems::Center
    } else {
        align_self == AlignSelf::Center
    };
    if start {
        CrossAlign::Start
    } else if end {
        CrossAlign::End
    } else if center {
        CrossAlign::Center
    } else if cross_undefined {
        CrossAlign::Stretch
    } else {
        CrossAlign::Baseline
    }
}

/// An item goes where it asks to go: an item's own `align_self` decides its
/// cross-axis placement whatever the container's `align_items` is, and only
/// `Auto` takes the container's; start, end and centre requests place it at
/// the start, the end and the centre, and a stretch or baseline request
/// stretches an item without a cross size and aligns any other on the
/// baseline.
pub proof fn lemma_cross_align_follows_request(align_self: AlignSelf, align_items: AlignItems, cross_undefined: bool)
    ensures
        ({
            let asks_start = align_self == AlignSelf::FlexStart || (align_self == AlignSelf::Auto
                && align_items == AlignItems::FlexStart);
            let asks_end = align_self == AlignSelf::FlexEnd || (align_self == AlignSelf::Auto
                && align_items == AlignItems::FlexEnd);
            let asks_center = align_self == AlignSelf::Center || (align_self == AlignSelf::Auto
                && align_items == AlignItems::Center);
            let r = cross_align_spec(align_self, align_items, cross_undefined);
            &&& (r == CrossAlign::Start) == asks_start
            &&& (r == CrossAlign::End) == asks_end
            &&& (r == CrossAlign::Center) == asks_center
            &&& (r == CrossAlign::Stretch) == (!asks_start && !asks_end && !asks_center && cross_undefined)
            &&& (r == CrossAlign::Baseline) == (!asks_start && !asks_end && !asks_center && !cross_undefined)
        }),
        align_self != AlignSelf::Auto ==> forall|other: AlignItems|
            #[trigger] cross_align_spec(align_self, other, cross_undefined) == cross_align_spec(align_self, align_items, cross_undefined),
{
}

/// Chooses an item's cross-axis placement (see `cross_align_spec`).
pub fn cross_align(align_self: AlignSelf, align_items: AlignItems, cross_undefined: bool) -> (r: CrossAlign)
    ensures
        r == cross_align_spec(align_self, align_items, cross_undefined),
{
    match align_self {
        AlignSelf::Auto => match align_items {
            AlignItems::FlexStart => CrossAlign::Start,
            AlignItems::FlexEnd => CrossAlign::End,
            AlignItems::Center => CrossAlign::Center,
            _ => if cross_undefined {
                CrossAlign::Stretch
            } else {
                CrossAlign::Baseline
            },
        },
        AlignSelf::FlexStart => CrossAlign::Start,
        AlignSelf::FlexEnd => CrossAlign::End,
        AlignSelf::Center => CrossAlign::Center,
        _ => if cross_undefined {
            CrossAlign::Stretch
        } else {
            CrossAlign::Baseline
        },
    }
}

/// A container's summary flags once a child with flags `child` is gathered:
/// an absolute child whose rectangle is not self-determined clears
/// `CHILDREN_RECT`; a hidden child changes nothing; any other child clears
/// `CHILDREN_RECT` unless its rectangle is self-determined, and clears
/// `CHILDREN_ABS`; a real (not virtual) one also clears `CHILDREN_INDEX`
/// when it has an order and `CHILDREN_NO_ALIGN_SELF` when it sets
/// `align_self`.
pub open spec fn child_summary_spec(x: u32, child: u32, hidden: bool, order: isize, align_self: AlignSelf) -> u32 {
    if has_flags(child, ABS) {
        if has_flags(child, SELF_RECT) {
            x
        } else {
            x & !CHILDREN_RECT
        }
    } else if hidden {
        x
    } else {
        let a = if !has_flags(child, SELF_RECT) {
            x & !CHILDREN_RECT
        } else {
            x
        };
        let b = a & !CHILDREN_ABS;
        if has_flags(child, VNODE) {
            b
        } else {
            let c = if order != 0 {
                b & !CHILDREN_INDEX
            } else {
                b
            };
            if align_self != AlignSelf::Auto {
                c & !CHILDREN_NO_ALIGN_SELF
            } else {
                c
            }
        }
    }
}

/// Clearing the flags `f` keeps exactly the flags of `g` that are not in `f`.
proof fn lemma_clear_flags(x: u32, f: u32, g: u32)
    by (bit_vector)
    ensures
        has_flags(x & !f, g) == (has_flags(x, g) && f & g == 0),
{
}

/// The four summary flags are distinct bits, and a flag outside all of them
/// shares a bit with none.
proof fn lemma_summary_flags_distinct(g: u32)
    by (bit_vector)
    ensures
        CHILDREN_RECT & CHILDREN_ABS == 0 && CHILDREN_RECT & CHILDREN_INDEX == 0
            && CHILDREN_RECT & CHILDREN_NO_ALIGN_SELF == 0,
        CHILDREN_ABS & CHILDREN_RECT == 0 && CHILDREN_ABS & CHILDREN_INDEX == 0
            && CHILDREN_ABS & CHILDREN_NO_ALIGN_SELF == 0,
        CHILDREN_INDEX & CHILDREN_RECT == 0 && CHILDREN_INDEX & CHILDREN_ABS == 0
            && CHILDREN_INDEX & CHILDREN_NO_ALIGN_SELF == 0,
        CHILDREN_NO_ALIGN_SELF & CHILDREN_RECT == 0 && CHILDREN_NO_ALIGN_SELF & CHILDREN_ABS == 0
            && CHILDREN_NO_ALIGN_SELF & CHILDREN_INDEX == 0,
        CHILDREN_RECT & CHILDREN_RECT != 0 && CHILDREN_ABS & CHILDREN_ABS != 0
            && CHILDREN_INDEX & CHILDREN_INDEX != 0 && CHILDREN_NO_ALIGN_SELF & CHILDREN_NO_ALIGN_SELF != 0,
        g & (CHILDREN_RECT | CHILDREN_ABS | CHILDREN_INDEX | CHILDREN_NO_ALIGN_SELF) == 0 ==> (
            CHILDREN_RECT & g == 0 && CHILDREN_ABS & g == 0 && CHILDREN_INDEX & g == 0
            && CHILDREN_NO_ALIGN_SELF & g == 0),
{
}

/// Gathering a child only ever clears summary flags of its container, each
/// exactly when the child disproves it: `CHILDREN_RECT` goes when a child
/// that is absolute or not hidden has no self-determined rectangle;
/// `CHILDREN_ABS` when a child that is neither absolute nor hidden comes;
/// `CHILDREN_INDEX` when such a child that is not virtual has an order; and
/// `CHILDREN_NO_ALIGN_SELF` when such a child sets `align_self`. Every
/// other flag stays as it was.
pub proof fn lemma_child_summary_clears(x: u32, child: u32, hidden: bool, order: isize, align_self: AlignSelf, g: u32)
    ensures
        ({
            let r = child_summary_spec(x, child, hidden, order, align_self);
            let abs = has_flags(child, ABS);
            let own_rect = has_flags(child, SELF_RECT);
            let counted = !abs && !hidden;
            let in_flow = counted && !has_flags(child, VNODE);
            &&& has_flags(r, g) ==> has_flags(x, g)
            &&& g & (CHILDREN_RECT | CHILDREN_ABS | CHILDREN_INDEX | CHILDREN_NO_ALIGN_SELF) == 0
                ==> has_flags(r, g) == has_flags(x, g)
            &&& has_flags(r, CHILDREN_RECT) == (has_flags(x, CHILDREN_RECT) && (own_rect || (!abs && hidden)))
            &&& has_flags(r, CHILDREN_ABS) == (has_flags(x, CHILDREN_ABS) && !counted)
            &&& has_flags(r, CHILDREN_INDEX) == (has_flags(x, CHILDREN_INDEX) && !(in_flow && order != 0))
            &&& has_flags(r, CHILDREN_NO_ALIGN_SELF) == (has_flags(x, CHILDREN_NO_ALIGN_SELF)
                && !(in_flow && align_self != AlignSelf::Auto))
        }),
{
    lemma_summary_flags_distinct(g);
    assert forall|v: u32, f: u32, h: u32| #[trigger] has_flags(v & !f, h) == (has_flags(v, h) && f & h == 0) by {
        lemma_clear_flags(v, f, h);
    }
}

/// Updates a container's summary flags for one gathered child (see
/// `child_summary_spec`).
pub fn child_summary(summary: &mut NodeState, child: NodeState, hidden: bool, order: isize, align_self: AlignSelf)
    ensures
        final(summary)@ == child_summary_spec(old(summary)@, child@, hidden, order, align_self),
{
    proof {
        lemma_flags_known();
    }
    if child.contains(NodeState::from_bits_truncate(ABS)) {
        if !child.contains(NodeState::from_bits_truncate(SELF_RECT)) {
            summary.set_false(NodeState::from_bits_truncate(CHILDREN_RECT));
        }
        return;
    }
    if hidden {
        return;
    }
    if !child.contains(NodeState::from_bits_truncate(SELF_RECT)) {
        summary.set_false(NodeState::from_bits_truncate(CHILDREN_RECT));
    }
    summary.set_false(NodeState::from_bits_truncate(CHILDREN_ABS));
    if child.contains(NodeState::from_bits_truncate(VNODE)) {
        return;
    }
    if order != 0 {
        summary.set_false(NodeState::from_bits_truncate(CHILDREN_INDEX));
    }
    if align_self != AlignSelf::Auto {
        summary.set_false(NodeState::from_bits_truncate(CHILDREN_NO_ALIGN_SELF));
    }
}

/// After a node's rectangle is set, its children must be laid out again
/// unless they are clean and either the node's size did not change or its size
/// cannot move them: all children have fixed rectangles and are absolute, or
/// are aligned plainly (no `align_self`, row or column without wrapping,
/// packed at the start on both axes).
pub open spec fn children_relayout_spec<T>(state: u32, size_changed: bool, flex: ContainerStyle<T>) -> bool {
    has_flags(state, CHILDREN_DIRTY) || (size_changed && !(has_flags(state, CHILDREN_RECT) && (has_flags(
        state,
        CHILDREN_ABS,
    ) || (has_flags(state, CHILDREN_NO_ALIGN_SELF) && (flex.flex_direction == FlexDirection::Row
        || flex.flex_direction == FlexDirection::Column) && flex.flex_wrap == FlexWrap::NoWrap
        && flex.justify_content == JustifyContent::FlexStart && flex.align_items == AlignItems::FlexStart))))
}

/// Dirty children are always laid out again; clean children of a node whose
/// size did not change never are; clean children whose rectangles are not
/// all self-determined are when the size changed; and clean children with
/// self-determined rectangles are not when they are all absolute.
pub proof fn lemma_children_relayout_cases<T>(state: u32, size_changed: bool, flex: ContainerStyle<T>)
    ensures
        has_flags(state, CHILDREN_DIRTY) ==> children_relayout_spec(state, size_changed, flex),
        !has_flags(state, CHILDREN_DIRTY) && !size_changed ==> !children_relayout_spec(state, size_changed, flex),
        size_changed && !has_flags(state, CHILDREN_RECT) ==> children_relayout_spec(state, size_changed, flex),
        !has_flags(state, CHILDREN_DIRTY) && has_flags(state, CHILDREN_RECT) && has_flags(state, CHILDREN_ABS)
            ==> !children_relayout_spec(state, size_changed, flex),
{
}

/// Decides whether a node's children need a new layout (see `children_relayout_spec`).
pub fn children_relayout<T>(state: NodeState, size_changed: bool, flex: &ContainerStyle<T>) -> (r: bool)
    ensures
        r == children_relayout_spec(state@, size_changed, *flex),
{
    proof {
        lemma_flags_known();
    }
    if !state.contains(NodeState::from_bits_truncate(CHILDREN_DIRTY)) {
        if !size_changed {
            return false;
        }
        if state.contains(NodeState::from_bits_truncate(CHILDREN_RECT)) && (state.contains(
            NodeState::from_bits_truncate(CHILDREN_ABS),
        ) || (state.contains(NodeState::from_bits_truncate(CHILDREN_NO_ALIGN_SELF)) && (flex.flex_direction
            == FlexDirection::Row || flex.flex_direction == FlexDirection::Column) && flex.flex_wrap
            == FlexWrap::NoWrap && flex.justify_content == JustifyContent::FlexStart && flex.align_items
            == AlignItems::FlexStart)) {
            return false;
        }
    }
    true
}

/// A child's item data as its container first sees it, with its styled main
/// and cross sizes: sizes, bounds and margins resolved against the
/// container's content box (margins always against its width), taken on the
/// container's axes; a defined flex basis replaces the main size; the item's
/// sizes are the styled ones (zero where undefined) within its bounds; its
/// factors come from the style and its line-start and break flags from `state`.
pub open spec fn flex_item_info_spec<K, T: Default + Mul<Output = T> + PartialOrd + From<u8>>(id: K, style: Style<T>, content: Size<T>, row: bool, state: u32) -> (RelNodeInfo<K, T>, Number<T>, Number<T>) {
    let w = calc_number_spec(style.size.width, content.width);
    let h = calc_number_spec(style.size.height, content.height);
    let basis = style.flex_basis;
    let has_basis = basis is Points || basis is Percent;
    let main = if has_basis {
        calc_number_spec(basis, axes(row, content.width, content.height).0)
    } else {
        axes(row, w, h).0
    };
    let cross = axes(row, w, h).1;
    let main_d = if has_basis {
        basis
    } else {
        axes(row, style.size.width, style.size.height).0
    };
    let cross_d = axes(row, style.size.width, style.size.height).1;
    let (max_main, max_cross) = axes(row, calc_number_spec(style.max_size.width, content.width), calc_number_spec(style.max_size.height, content.height));
    let (min_main, min_cross) = axes(row, calc_number_spec(style.min_size.width, content.width), calc_number_spec(style.min_size.height, content.height));
    let (ms, me, cs, ce) = if row {
        (
            calc_location_number_spec(style.margin.left, content.width),
            calc_location_number_spec(style.margin.right, content.width),
            calc_location_number_spec(style.margin.top, content.width),
            calc_location_number_spec(style.margin.bottom, content.width),
        )
    } else {
        (
            calc_location_number_spec(style.margin.top, content.width),
            calc_location_number_spec(style.margin.bottom, content.width),
            calc_location_number_spec(style.margin.left, content.width),
            calc_location_number_spec(style.margin.right, content.width),
        )
    };
    (RelNodeInfo {
        id,
        grow: style.flex_grow,
        shrink: style.flex_shrink,
        main: min_max_spec(num_or(main, zero()), min_main, max_main),
        cross: min_max_spec(num_or(cross, zero()), min_cross, max_cross),
        margin_main: zero(),
        margin_main_start: ms,
        margin_main_end: me,
        margin_cross_start: cs,
        margin_cross_end: ce,
        align_self: style.align_self,
        main_d,
        cross_d,
        line_start_margin_zero: has_flags(state, LINE_START_MARGIN_ZERO),
        breakline: has_flags(state, BREAK_LINE),
        min_main,
        max_main,
        main_result: zero(),
        main_result_maybe_ok: false,
    }, main, cross)
}

/// Every length of the style that `flex_item_info` resolves can be resolved.
pub open spec fn flex_item_info_req<T: Default + Mul<Output = T>>(style: Style<T>, content: Size<T>, row: bool) -> bool {
    &&& resolve_req(style.size.width, content.width)
    &&& resolve_req(style.size.height, content.height)
    &&& resolve_req(style.flex_basis, axes(row, content.width, content.height).0)
    &&& resolve_req(style.min_size.width, content.width)
    &&& resolve_req(style.max_size.width, content.width)
    &&& resolve_req(style.min_size.height, content.height)
    &&& resolve_req(style.max_size.height, content.height)
    &&& resolve_req(style.margin.left, content.width)
    &&& resolve_req(style.margin.right, content.width)
    &&& resolve_req(style.margin.top, content.width)
    &&& resolve_req(style.margin.bottom, content.width)
}

/// The item data of a relatively positioned child and its styled main and
/// cross sizes (see `flex_item_info_spec`).
pub fn flex_item_info<K, T: Copy + Default + Mul<Output = T> + PartialOrd + From<u8>>(id: K, style: &Style<T>, content: Size<T>, row: bool, state: NodeState) -> (r: (RelNodeInfo<K, T>, Number<T>, Number<T>))
    requires
        flex_item_info_req(*style, content, row),
    ensures
        r.0.main_d == flex_item_info_spec(id, *style, content, row, state@).0.main_d,
        r.0.cross_d == flex_item_info_spec(id, *style, content, row, state@).0.cross_d,
        r.0.line_start_margin_zero == has_flags(state@, LINE_START_MARGIN_ZERO),
        r.0.breakline == has_flags(state@, BREAK_LINE),
        T::obeys_mul_spec() && T::obeys_from_spec() && T::obeys_partial_cmp_spec()
            ==> r == flex_item_info_spec(id, *style, content, row, state@),
{
    proof {
        lemma_flags_known();
    }
    let zero = T::from(0u8);
    let w = calc_number(style.size.width, content.width);
    let h = calc_number(style.size.height, content.height);
    let basis = style.flex_basis;
    let (mut main, cross) = main_cross(row, w, h);
    let (mut main_d, cross_d) = main_cross(row, style.size.width, style.size.height);
    if basis.is_defined() {
        main = calc_number(basis, main_cross(row, content.width, content.height).0);
        main_d = basis;
    }
    let (min_width, max_width, min_height, max_height) = (
        calc_number(style.min_size.width, content.width),
        calc_number(style.max_size.width, content.width),
        calc_number(style.min_size.height, content.height),
        calc_number(style.max_size.height, content.height),
    );
    let (max_main, max_cross) = main_cross(row, max_width, max_height);
    let (min_main, min_cross) = main_cross(row, min_width, min_height);
    let ((margin_main_start, margin_main_end), (margin_cross_start, margin_cross_end)) = main_cross(
        row,
        (calc_location_number(style.margin.left, content.width), calc_location_number(style.margin.right, content.width)),
        (calc_location_number(style.margin.top, content.width), calc_location_number(style.margin.bottom, content.width)),
    );
    let info = RelNodeInfo {
        id,
        grow: style.flex_grow,
        shrink: style.flex_shrink,
        main: min_max_calc(main.or_else(zero), min_main, max_main),
        cross: min_max_calc(cross.or_else(zero), min_cross, max_cross),
        margin_main: zero,
        margin_main_start,
        margin_main_end,
        margin_cross_start,
        margin_cross_end,
        align_self: style.align_self,
        main_d,
        cross_d,
        line_start_margin_zero: state.contains(NodeState::from_bits_truncate(LINE_START_MARGIN_ZERO)),
        breakline: state.contains(NodeState::from_bits_truncate(BREAK_LINE)),
        min_main,
        max_main,
        main_result: zero,
        main_result_maybe_ok: false,
    };
    (info, main, cross)
}

/// On the container's axes an item's bounds are the style's: in a row its
/// main-axis bounds are the resolved minimum and maximum width and its
/// cross-axis ones the height's, in a column the other way round; with `Px`
/// lengths its main size never exceeds a defined maximum on the main axis
/// and its cross size never one on the cross axis, and each reaches at least
/// a defined minimum that is not above the maximum.
pub proof fn lemma_flex_item_bounds_on_axes<K>(id: K, style: Style<Px>, content: Size<Px>, row: bool, state: u32)
    requires
        flex_item_info_req(style, content, row),
    ensures
        ({
            let info = flex_item_info_spec(id, style, content, row, state).0;
            let max_w = calc_number_spec(style.max_size.width, content.width);
            let max_h = calc_number_spec(style.max_size.height, content.height);
            let min_w = calc_number_spec(style.min_size.width, content.width);
            let min_h = calc_number_spec(style.min_size.height, content.height);
            let (max_cross, min_cross) = if row { (max_h, min_h) } else { (max_w, min_w) };
            &&& info.max_main == (if row { max_w } else { max_h })
            &&& info.min_main == (if row { min_w } else { min_h })
            &&& (info.max_main matches Number::Defined(hi) ==> info.main.0 <= hi.0)
            &&& (info.min_main matches Number::Defined(lo) ==> (info.max_main matches Number::Defined(hi)
                ==> lo.0 <= hi.0 ==> lo.0 <= info.main.0))
            &&& (info.min_main matches Number::Defined(lo) ==> info.max_main is Undefined ==> lo.0 <= info.main.0)
            &&& (max_cross matches Number::Defined(hi) ==> info.cross.0 <= hi.0)
            &&& (min_cross matches Number::Defined(lo) ==> (max_cross matches Number::Defined(hi)
                ==> lo.0 <= hi.0 ==> lo.0 <= info.cross.0))
            &&& (min_cross matches Number::Defined(lo) ==> max_cross is Undefined ==> lo.0 <= info.cross.0)
        }),
{
}

} // verus!
