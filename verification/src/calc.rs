use core::convert::From;
use core::ops::{Add, Div, Mul, Sub};
use pi_null::Null;
use pi_slotmap::DefaultKey;
use vstd::prelude::*;
use crate::node_state::lemma_flags_known;
use vstd::std_specs::cmp::{PartialEqSpec, PartialOrdIs, PartialOrdSpec};
use vstd::std_specs::convert::FromSpec;
use vstd::std_specs::ops::{AddSpec, DivSpec, MulSpec, SubSpec};
use crate::geometry::{Rect, Size};
use crate::px::Px;
use crate::node_state::{NodeState, has_flags, default_bits, CHILDREN_INDEX, RNODE, VNODE, LINE_START_MARGIN_ZERO, BREAK_LINE};
use crate::number::{Number, OrElse};
use crate::style::{AlignContent, AlignItems, AlignSelf, ContainerStyle, Dimension, Direction, FlexDirection, FlexWrap, JustifyContent, OverflowWrap, resolve_req, resolve_spec, row_direction};
use crate::line::{LineInfo, LineItem, LineView, empty_line, lemma_line_fold_req_prefix, line_add_req, line_add_spec, line_fold, line_fold_req};
use crate::order::OrderSort;
use crate::geometry::SideGap;
use crate::layout_context::{CrossAlign, cross_align, cross_align_spec};

verus! {

/// The key type of the character slot map.
#[verifier::external_type_specification]
#[verifier::external_body]
pub struct ExDefaultKey(DefaultKey);

/// `DefaultKey`'s `clone` (the key type of `pi_key`, re-exported by `pi_slotmap`): the type
/// derives `Copy` and `Clone`, so a clone is the same key.
pub assume_specification[ <DefaultKey as Clone>::clone ](k: &DefaultKey) -> (r: DefaultKey)
    ensures
        r == *k,
;

/// `<DefaultKey as pi_null::Null>::null()`, the key that refers to no slot (index and
/// version both `u32::MAX` in the source). Nothing is stated of the key: the type is
/// opaque here.
#[verifier::external_body]
fn null_char_key() -> DefaultKey {
    <DefaultKey as Null>::null()
}

/// One laid-out character (or, with `ch == '\0'`, a word container of `count` characters).
#[derive(Clone, Copy, Debug)]
pub struct CharNode<T: Default> {
    /// The character.
    pub ch: char,
    /// Its size.
    pub size: Size<Dimension<T>>,
    /// Its position.
    pub pos: Rect<T>,
    /// For a word container, the number of characters in it.
    pub count: usize,
    /// The character's key.
    pub ch_id: DefaultKey,
    /// Index of the character in the whole node.
    pub char_i: isize,
    /// Context index when the character belongs to a multi-character text.
    pub context_id: isize,
}

impl<T: Copy + Default> Default for CharNode<T> {
    /// The word-container character `'\0'` with zero size and position, and no indices.
    fn default() -> (r: Self)
        ensures
            r.ch == '\0',
            r.count == 0,
            r.char_i == -1,
            r.context_id == -1,
            r.size.width == Dimension::Points(r.pos.left),
            r.size.height == Dimension::Points(r.pos.left),
            r.pos.right == r.pos.left,
            r.pos.top == r.pos.left,
            r.pos.bottom == r.pos.left,
    {
        let zero = T::default();
        CharNode {
            ch: '\0',
            size: Size { width: Dimension::Points(zero), height: Dimension::Points(zero) },
            pos: Rect { top: zero, right: zero, bottom: zero, left: zero },
            count: 0,
            ch_id: null_char_key(),
            char_i: -1,
            context_id: -1,
        }
    }
}

/// The layout data kept for each node: its flags and its text.
#[derive(Clone, Debug)]
pub struct INode<T: Default> {
    /// The node's flags.
    pub state: NodeState,
    /// The characters of a text node.
    pub text: Vec<CharNode<T>>,
    /// For mixed text and images, the position in the character list.
    pub char_index: usize,
    /// The scale of the text layout.
    pub scale: T,
    /// Whether a simple layout is used.
    pub is_sample: bool,
}

impl<T: Default + From<u8>> INode<T> {
    /// A node with the flags `value` and children in index order, no text,
    /// scale one.
    pub fn new(value: NodeState, char_index: usize) -> (r: Self)
        ensures
            r.state@ == value@ | CHILDREN_INDEX,
            r.text@.len() == 0,
            r.char_index == char_index,
            T::obeys_from_spec() ==> r.scale == T::from_spec(1u8),
            !r.is_sample,
    {
        proof {
            lemma_flags_known();
        }
        INode {
            state: value.union(NodeState::from_bits_truncate(CHILDREN_INDEX)),
            text: Vec::new(),
            char_index,
            scale: T::from(1u8),
            is_sample: false,
        }
    }
}

impl<T: Default + From<u8>> Default for INode<T> {
    /// A real node with the default flags, no text, scale one.
    fn default() -> (r: Self)
        ensures
            r.state@ == default_bits() | RNODE,
            r.text@.len() == 0,
            r.char_index == 0,
            T::obeys_from_spec() ==> r.scale == T::from_spec(1u8),
            !r.is_sample,
    {
        proof {
            lemma_flags_known();
        }
        INode {
            state: NodeState::default().union(NodeState::from_bits_truncate(RNODE)),
            text: Vec::new(),
            char_index: 0,
            scale: T::from(1u8),
            is_sample: false,
        }
    }
}

impl<T: Default> INode<T> {
    /// A virtual node.
    pub fn is_vnode(&self) -> (r: bool)
        ensures
            r == has_flags(self.state@, VNODE),
    {
        proof {
            lemma_flags_known();
        }
        self.state.contains(NodeState::from_bits_truncate(VNODE))
    }

    /// A real node.
    pub fn is_rnode(&self) -> (r: bool)
        ensures
            r == has_flags(self.state@, RNODE),
    {
        proof {
            lemma_flags_known();
        }
        self.state.contains(NodeState::from_bits_truncate(RNODE))
    }

    /// Sets or clears the virtual-node flag; the other flags stay.
    pub fn set_vnode(&mut self, b: bool)
        ensures
            b ==> final(self).state@ == old(self).state@ | VNODE,
            !b ==> final(self).state@ == old(self).state@ & !VNODE,
            final(self).text == old(self).text,
            final(self).char_index == old(self).char_index,
            final(self).scale == old(self).scale,
            final(self).is_sample == old(self).is_sample,
    {
        proof {
            lemma_flags_known();
        }
        self.state.set(NodeState::from_bits_truncate(VNODE), b);
    }

    /// Sets or clears the real-node flag; the other flags stay.
    pub fn set_rnode(&mut self, b: bool)
        ensures
            b ==> final(self).state@ == old(self).state@ | RNODE,
            !b ==> final(self).state@ == old(self).state@ & !RNODE,
            final(self).text == old(self).text,
            final(self).char_index == old(self).char_index,
            final(self).scale == old(self).scale,
            final(self).is_sample == old(self).is_sample,
    {
        proof {
            lemma_flags_known();
        }
        self.state.set(NodeState::from_bits_truncate(RNODE), b);
    }

    /// Sets or clears whether a leading margin is dropped at the start of a line.
    pub fn set_line_start_margin_zero(&mut self, b: bool)
        ensures
            b ==> final(self).state@ == old(self).state@ | LINE_START_MARGIN_ZERO,
            !b ==> final(self).state@ == old(self).state@ & !LINE_START_MARGIN_ZERO,
            final(self).text == old(self).text,
            final(self).char_index == old(self).char_index,
            final(self).scale == old(self).scale,
            final(self).is_sample == old(self).is_sample,
    {
        proof {
            lemma_flags_known();
        }
        self.state.set(NodeState::from_bits_truncate(LINE_START_MARGIN_ZERO), b);
    }

    /// Sets or clears the forced line break.
    pub fn set_breakline(&mut self, b: bool)
        ensures
            b ==> final(self).state@ == old(self).state@ | BREAK_LINE,
            !b ==> final(self).state@ == old(self).state@ & !BREAK_LINE,
            final(self).text == old(self).text,
            final(self).char_index == old(self).char_index,
            final(self).scale == old(self).scale,
            final(self).is_sample == old(self).is_sample,
    {
        proof {
            lemma_flags_known();
        }
        self.state.set(NodeState::from_bits_truncate(BREAK_LINE), b);
    }
}

/// The sibling to visit next: `prev` for right-to-left, `next` otherwise.
pub fn node_iter<K: Copy>(direction: Direction, next: K, prev: K) -> (r: K)
    ensures
        r == (if direction == Direction::RTL {
            prev
        } else {
            next
        }),
{
    if direction != Direction::RTL {
        next
    } else {
        prev
    }
}

/// An undefined value falls back to a defined maximum.
pub fn max_calc<T: Copy>(value: Number<T>, max_value: Number<T>) -> (r: Number<T>)
    ensures
        r == (if value is Undefined && max_value is Defined {
            max_value
        } else {
            value
        }),
{
    if let (Number::Undefined, Number::Defined(_r)) = (value, max_value) {
        max_value
    } else {
        value
    }
}

/// Width and height as (main, cross): unchanged for a row, swapped for a column.
pub fn main_cross<T>(row: bool, w: T, h: T) -> (r: (T, T))
    ensures
        r == (if row {
            (w, h)
        } else {
            (h, w)
        }),
{
    if row {
        (w, h)
    } else {
        (h, w)
    }
}


/// The cached layout data of a relatively positioned flex item, along the
/// axes of its container.
#[derive(Default, Clone, PartialEq, PartialOrd, Debug)]
pub struct RelNodeInfo<K, T> {
    pub id: K,
    /// Cross-axis size.
    pub cross: T,
    /// Start plus end margin on the main axis.
    pub margin_main: T,
    /// Main-axis start margin (undefined for `auto`).
    pub margin_main_start: Number<T>,
    /// Main-axis end margin.
    pub margin_main_end: Number<T>,
    /// Cross-axis start margin.
    pub margin_cross_start: Number<T>,
    /// Cross-axis end margin.
    pub margin_cross_end: Number<T>,
    pub align_self: AlignSelf,
    /// Main-axis size as styled.
    pub main_d: Dimension<T>,
    /// Cross-axis size as styled.
    pub cross_d: Dimension<T>,
    /// At the start of a line the start margin is dropped.
    pub line_start_margin_zero: bool,
    /// A line break is forced before the item.
    pub breakline: bool,
    pub grow: T,
    pub shrink: T,
    /// Main-axis size (after the flex basis).
    pub main: T,
    pub min_main: Number<T>,
    pub max_main: Number<T>,
    pub main_result: T,
    pub main_result_maybe_ok: bool,
}

/// The number's value, or `d` where it is undefined.
pub open spec fn num_or<T>(n: Number<T>, d: T) -> T {
    match n {
        Number::Defined(v) => v,
        Number::Undefined => d,
    }
}

/// The scalar zero, as `T::from(0u8)`.
pub open spec fn zero<T: From<u8>>() -> T {
    T::from_spec(0u8)
}

/// The scalar one, as `T::from(1u8)`.
pub open spec fn one<T: From<u8>>() -> T {
    T::from_spec(1u8)
}

/// The scalar two, as `T::from(2u8)`.
pub open spec fn two<T: From<u8>>() -> T {
    T::from_spec(2u8)
}

/// `T`'s arithmetic and conversion follow their specifications.
pub open spec fn obeys_arith<T: Add<Output = T> + Sub<Output = T> + Mul<Output = T> + Div<Output = T> + From<u8>>() -> bool {
    T::obeys_add_spec() && T::obeys_sub_spec() && T::obeys_mul_spec() && T::obeys_div_spec()
        && T::obeys_from_spec()
}

/// `T`'s equality, order, arithmetic and conversion follow their specifications.
pub open spec fn obeys_laws<T: PartialEq + PartialOrd + Add<Output = T> + Sub<Output = T> + Mul<Output = T> + Div<Output = T> + From<u8>>() -> bool {
    &&& obeys_arith::<T>()
    &&& T::obeys_eq_spec()
    &&& T::obeys_partial_cmp_spec()
}

/// `T`'s addition is defined on all operands (as it is on floats).
pub open spec fn add_total<T: Add<Output = T>>() -> bool {
    forall|a: T, b: T| #[trigger] a.add_req(b)
}

/// `T`'s subtraction is defined on all operands (as it is on floats).
pub open spec fn sub_total<T: Sub<Output = T>>() -> bool {
    forall|a: T, b: T| #[trigger] a.sub_req(b)
}

/// `T`'s multiplication is defined on all operands (as it is on floats).
pub open spec fn mul_total<T: Mul<Output = T>>() -> bool {
    forall|a: T, b: T| #[trigger] a.mul_req(b)
}

/// `T`'s division is defined on all operands (as it is on floats).
pub open spec fn div_total<T: Div<Output = T>>() -> bool {
    forall|a: T, b: T| #[trigger] a.div_req(b)
}

/// `T`'s four operations are defined on all operands (as they are on floats).
pub open spec fn ops_total<T: Add<Output = T> + Sub<Output = T> + Mul<Output = T> + Div<Output = T>>() -> bool {
    &&& add_total::<T>()
    &&& sub_total::<T>()
    &&& mul_total::<T>()
    &&& div_total::<T>()
}

/// Placing an item on the main axis while growing it by `grow * per`: the item
/// starts after its start margin, and the position moves past the item and its
/// end margin. Gives (start, size, next position).
pub open spec fn grow_calc_spec<K, T: Add<Output = T> + Mul<Output = T> + From<u8>>(info: RelNodeInfo<K, T>, per: T, pos: T) -> (T, T, T) {
    let size = info.main.add_spec(info.grow.mul_spec(per));
    let start = pos.add_spec(num_or(info.margin_main_start, zero()));
    (start, size, start.add_spec(size).add_spec(num_or(info.margin_main_end, zero())))
}

/// The operations of `grow_calc_spec` are defined.
pub open spec fn grow_calc_req<K, T: Add<Output = T> + Mul<Output = T> + From<u8>>(info: RelNodeInfo<K, T>, per: T, pos: T) -> bool {
    let size = info.main.add_spec(info.grow.mul_spec(per));
    let start = pos.add_spec(num_or(info.margin_main_start, zero()));
    &&& info.grow.mul_req(per)
    &&& info.main.add_req(info.grow.mul_spec(per))
    &&& pos.add_req(num_or(info.margin_main_start, zero()))
    &&& start.add_req(size)
    &&& start.add_spec(size).add_req(num_or(info.margin_main_end, zero()))
}

/// Places a growing item (see `grow_calc_spec`).
pub fn grow_calc<K, T: Copy + Add<Output = T> + Mul<Output = T> + From<u8>>(info: &RelNodeInfo<K, T>, per: T, pos: &mut T) -> (r: (T, T))
    requires
        (T::obeys_add_spec() && T::obeys_mul_spec() && T::obeys_from_spec() && grow_calc_req(*info, per, *old(pos)))
            || (add_total::<T>() && mul_total::<T>()),
    ensures
        T::obeys_add_spec() && T::obeys_mul_spec() && T::obeys_from_spec() ==> (r == (grow_calc_spec(*info, per, *old(pos)).0, grow_calc_spec(*info, per, *old(pos)).1)),
        T::obeys_add_spec() && T::obeys_mul_spec() && T::obeys_from_spec() ==> (*final(pos) == grow_calc_spec(*info, per, *old(pos)).2),
{
    let size = info.main + info.grow * per;
    let start = *pos + info.margin_main_start.or_else(T::from(0u8));
    *pos = start + size + info.margin_main_end.or_else(T::from(0u8));
    (start, size)
}

/// Placing a growing item from the end of the main axis: the item ends before
/// its end margin, and the position moves before the item and its start margin.
pub open spec fn grow_calc_reverse_spec<K, T: Add<Output = T> + Sub<Output = T> + Mul<Output = T> + From<u8>>(info: RelNodeInfo<K, T>, per: T, pos: T) -> (T, T, T) {
    let size = info.main.add_spec(info.grow.mul_spec(per));
    let start = pos.sub_spec(num_or(info.margin_main_end, zero())).sub_spec(size);
    (start, size, start.sub_spec(num_or(info.margin_main_start, zero())))
}

/// The operations of `grow_calc_reverse_spec` are defined.
pub open spec fn grow_calc_reverse_req<K, T: Add<Output = T> + Sub<Output = T> + Mul<Output = T> + From<u8>>(info: RelNodeInfo<K, T>, per: T, pos: T) -> bool {
    let size = info.main.add_spec(info.grow.mul_spec(per));
    let p1 = pos.sub_spec(num_or(info.margin_main_end, zero()));
    &&& info.grow.mul_req(per)
    &&& info.main.add_req(info.grow.mul_spec(per))
    &&& pos.sub_req(num_or(info.margin_main_end, zero()))
    &&& p1.sub_req(size)
    &&& p1.sub_spec(size).sub_req(num_or(info.margin_main_start, zero()))
}

/// Places a growing item from the end (see `grow_calc_reverse_spec`).
pub fn grow_calc_reverse<K, T: Copy + Add<Output = T> + Sub<Output = T> + Mul<Output = T> + From<u8>>(info: &RelNodeInfo<K, T>, per: T, pos: &mut T) -> (r: (T, T))
    requires
        (T::obeys_add_spec() && T::obeys_sub_spec() && T::obeys_mul_spec() && T::obeys_from_spec() && grow_calc_reverse_req(*info, per, *old(pos)))
            || (add_total::<T>() && sub_total::<T>() && mul_total::<T>()),
    ensures
        T::obeys_add_spec() && T::obeys_sub_spec() && T::obeys_mul_spec() && T::obeys_from_spec() ==> (r == (grow_calc_reverse_spec(*info, per, *old(pos)).0, grow_calc_reverse_spec(*info, per, *old(pos)).1)),
        T::obeys_add_spec() && T::obeys_sub_spec() && T::obeys_mul_spec() && T::obeys_from_spec() ==> (*final(pos) == grow_calc_reverse_spec(*info, per, *old(pos)).2),
{
    let size = info.main + info.grow * per;
    let start = *pos - info.margin_main_end.or_else(T::from(0u8)) - size;
    *pos = start - info.margin_main_start.or_else(T::from(0u8));
    (start, size)
}

/// Placing an item with `auto` margins that share the free space: an `auto`
/// margin takes `per`.
pub open spec fn margin_calc_spec<K, T: Add<Output = T>>(info: RelNodeInfo<K, T>, per: T, pos: T) -> (T, T, T) {
    let start = pos.add_spec(num_or(info.margin_main_start, per));
    (start, info.main, start.add_spec(info.main).add_spec(num_or(info.margin_main_end, per)))
}

/// The operations of `margin_calc_spec` are defined.
pub open spec fn margin_calc_req<K, T: Add<Output = T>>(info: RelNodeInfo<K, T>, per: T, pos: T) -> bool {
    let start = pos.add_spec(num_or(info.margin_main_start, per));
    &&& pos.add_req(num_or(info.margin_main_start, per))
    &&& start.add_req(info.main)
    &&& start.add_spec(info.main).add_req(num_or(info.margin_main_end, per))
}

/// Places an item with shared `auto` margins (see `margin_calc_spec`).
pub fn margin_calc<K, T: Copy + Add<Output = T>>(info: &RelNodeInfo<K, T>, per: T, pos: &mut T) -> (r: (T, T))
    requires
        (T::obeys_add_spec() && margin_calc_req(*info, per, *old(pos))) || (add_total::<T>()),
    ensures
        T::obeys_add_spec() ==> (r == (margin_calc_spec(*info, per, *old(pos)).0, margin_calc_spec(*info, per, *old(pos)).1)),
        T::obeys_add_spec() ==> (*final(pos) == margin_calc_spec(*info, per, *old(pos)).2),
{
    let start = *pos + info.margin_main_start.or_else(per);
    *pos = start + info.main + info.margin_main_end.or_else(per);
    (start, info.main)
}

/// Placing an item with shared `auto` margins from the end; the position then
/// moves before the item by its end margin (the code uses the end margin on both sides).
pub open spec fn margin_calc_reverse_spec<K, T: Sub<Output = T>>(info: RelNodeInfo<K, T>, per: T, pos: T) -> (T, T, T) {
    let start = pos.sub_spec(num_or(info.margin_main_end, per)).sub_spec(info.main);
    (start, info.main, start.sub_spec(num_or(info.margin_main_end, per)))
}

/// The operations of `margin_calc_reverse_spec` are defined.
pub open spec fn margin_calc_reverse_req<K, T: Sub<Output = T>>(info: RelNodeInfo<K, T>, per: T, pos: T) -> bool {
    let p1 = pos.sub_spec(num_or(info.margin_main_end, per));
    &&& pos.sub_req(num_or(info.margin_main_end, per))
    &&& p1.sub_req(info.main)
    &&& p1.sub_spec(info.main).sub_req(num_or(info.margin_main_end, per))
}

/// Places an item with shared `auto` margins from the end (see `margin_calc_reverse_spec`).
pub fn margin_calc_reverse<K, T: Copy + Sub<Output = T>>(info: &RelNodeInfo<K, T>, per: T, pos: &mut T) -> (r: (T, T))
    requires
        (T::obeys_sub_spec() && margin_calc_reverse_req(*info, per, *old(pos)))
            || (sub_total::<T>()),
    ensures
        T::obeys_sub_spec() ==> (r == (margin_calc_reverse_spec(*info, per, *old(pos)).0, margin_calc_reverse_spec(*info, per, *old(pos)).1)),
        T::obeys_sub_spec() ==> (*final(pos) == margin_calc_reverse_spec(*info, per, *old(pos)).2),
{
    let start = *pos - info.margin_main_end.or_else(per) - info.main;
    *pos = start - info.margin_main_end.or_else(per);
    (start, info.main)
}

/// Placing an item while shrinking it by `shrink * per`.
pub open spec fn shrink_calc_spec<K, T: Add<Output = T> + Sub<Output = T> + Mul<Output = T> + From<u8>>(info: RelNodeInfo<K, T>, per: T, pos: T) -> (T, T, T) {
    let size = info.main.sub_spec(info.shrink.mul_spec(per));
    let start = pos.add_spec(num_or(info.margin_main_start, zero()));
    (start, size, start.add_spec(size).add_spec(num_or(info.margin_main_end, zero())))
}

/// The operations of `shrink_calc_spec` are defined.
pub open spec fn shrink_calc_req<K, T: Add<Output = T> + Sub<Output = T> + Mul<Output = T> + From<u8>>(info: RelNodeInfo<K, T>, per: T, pos: T) -> bool {
    let size = info.main.sub_spec(info.shrink.mul_spec(per));
    let start = pos.add_spec(num_or(info.margin_main_start, zero()));
    &&& info.shrink.mul_req(per)
    &&& info.main.sub_req(info.shrink.mul_spec(per))
    &&& pos.add_req(num_or(info.margin_main_start, zero()))
    &&& start.add_req(size)
    &&& start.add_spec(size).add_req(num_or(info.margin_main_end, zero()))
}

/// Places a shrinking item (see `shrink_calc_spec`).
pub fn shrink_calc<K, T: Copy + Add<Output = T> + Sub<Output = T> + Mul<Output = T> + From<u8>>(info: &RelNodeInfo<K, T>, per: T, pos: &mut T) -> (r: (T, T))
    requires
        (T::obeys_add_spec() && T::obeys_sub_spec() && T::obeys_mul_spec() && T::obeys_from_spec() && shrink_calc_req(*info, per, *old(pos)))
            || (add_total::<T>() && sub_total::<T>() && mul_total::<T>()),
    ensures
        T::obeys_add_spec() && T::obeys_sub_spec() && T::obeys_mul_spec() && T::obeys_from_spec() ==> (r == (shrink_calc_spec(*info, per, *old(pos)).0, shrink_calc_spec(*info, per, *old(pos)).1)),
        T::obeys_add_spec() && T::obeys_sub_spec() && T::obeys_mul_spec() && T::obeys_from_spec() ==> (*final(pos) == shrink_calc_spec(*info, per, *old(pos)).2),
{
    let size = info.main - info.shrink * per;
    let start = *pos + info.margin_main_start.or_else(T::from(0u8));
    *pos = start + size + info.margin_main_end.or_else(T::from(0u8));
    (start, size)
}

/// Placing a shrinking item from the end of the main axis.
pub open spec fn shrink_calc_reverse_spec<K, T: Sub<Output = T> + Mul<Output = T> + From<u8>>(info: RelNodeInfo<K, T>, per: T, pos: T) -> (T, T, T) {
    let size = info.main.sub_spec(info.shrink.mul_spec(per));
    let start = pos.sub_spec(num_or(info.margin_main_end, zero())).sub_spec(size);
    (start, size, start.sub_spec(num_or(info.margin_main_start, zero())))
}

/// The operations of `shrink_calc_reverse_spec` are defined.
pub open spec fn shrink_calc_reverse_req<K, T: Sub<Output = T> + Mul<Output = T> + From<u8>>(info: RelNodeInfo<K, T>, per: T, pos: T) -> bool {
    let size = info.main.sub_spec(info.shrink.mul_spec(per));
    let p1 = pos.sub_spec(num_or(info.margin_main_end, zero()));
    &&& info.shrink.mul_req(per)
    &&& info.main.sub_req(info.shrink.mul_spec(per))
    &&& pos.sub_req(num_or(info.margin_main_end, zero()))
    &&& p1.sub_req(size)
    &&& p1.sub_spec(size).sub_req(num_or(info.margin_main_start, zero()))
}

/// Places a shrinking item from the end (see `shrink_calc_reverse_spec`).
pub fn shrink_calc_reverse<K, T: Copy + Sub<Output = T> + Mul<Output = T> + From<u8>>(info: &RelNodeInfo<K, T>, per: T, pos: &mut T) -> (r: (T, T))
    requires
        (T::obeys_sub_spec() && T::obeys_mul_spec() && T::obeys_from_spec() && shrink_calc_reverse_req(*info, per, *old(pos)))
            || (sub_total::<T>() && mul_total::<T>()),
    ensures
        T::obeys_sub_spec() && T::obeys_mul_spec() && T::obeys_from_spec() ==> (r == (shrink_calc_reverse_spec(*info, per, *old(pos)).0, shrink_calc_reverse_spec(*info, per, *old(pos)).1)),
        T::obeys_sub_spec() && T::obeys_mul_spec() && T::obeys_from_spec() ==> (*final(pos) == shrink_calc_reverse_spec(*info, per, *old(pos)).2),
{
    let size = info.main - info.shrink * per;
    let start = *pos - info.margin_main_end.or_else(T::from(0u8)) - size;
    *pos = start - info.margin_main_start.or_else(T::from(0u8));
    (start, size)
}

/// Placing an item at its own size, followed by the gap `per`.
pub open spec fn main_calc_spec<K, T: Add<Output = T> + From<u8>>(info: RelNodeInfo<K, T>, per: T, pos: T) -> (T, T, T) {
    let start = pos.add_spec(num_or(info.margin_main_start, zero()));
    (start, info.main, start.add_spec(info.main).add_spec(num_or(info.margin_main_end, zero())).add_spec(per))
}

/// The operations of `main_calc_spec` are defined.
pub open spec fn main_calc_req<K, T: Add<Output = T> + From<u8>>(info: RelNodeInfo<K, T>, per: T, pos: T) -> bool {
    let start = pos.add_spec(num_or(info.margin_main_start, zero()));
    let p2 = start.add_spec(info.main);
    &&& pos.add_req(num_or(info.margin_main_start, zero()))
    &&& start.add_req(info.main)
    &&& p2.add_req(num_or(info.margin_main_end, zero()))
    &&& p2.add_spec(num_or(info.margin_main_end, zero())).add_req(per)
}

/// Places an item at its size followed by a gap (see `main_calc_spec`).
pub fn main_calc<K, T: Copy + Add<Output = T> + From<u8>>(info: &RelNodeInfo<K, T>, per: T, pos: &mut T) -> (r: (T, T))
    requires
        (T::obeys_add_spec() && T::obeys_from_spec() && main_calc_req(*info, per, *old(pos)))
            || (add_total::<T>()),
    ensures
        T::obeys_add_spec() && T::obeys_from_spec() ==> (r == (main_calc_spec(*info, per, *old(pos)).0, main_calc_spec(*info, per, *old(pos)).1)),
        T::obeys_add_spec() && T::obeys_from_spec() ==> (*final(pos) == main_calc_spec(*info, per, *old(pos)).2),
{
    let start = *pos + info.margin_main_start.or_else(T::from(0u8));
    *pos = start + info.main + info.margin_main_end.or_else(T::from(0u8)) + per;
    (start, info.main)
}

/// Placing an item at its own size from the end, preceded by the gap `per`.
pub open spec fn main_calc_reverse_spec<K, T: Sub<Output = T> + From<u8>>(info: RelNodeInfo<K, T>, per: T, pos: T) -> (T, T, T) {
    let start = pos.sub_spec(num_or(info.margin_main_end, zero())).sub_spec(info.main);
    (start, info.main, start.sub_spec(num_or(info.margin_main_start, zero())).sub_spec(per))
}

/// The operations of `main_calc_reverse_spec` are defined.
pub open spec fn main_calc_reverse_req<K, T: Sub<Output = T> + From<u8>>(info: RelNodeInfo<K, T>, per: T, pos: T) -> bool {
    let p1 = pos.sub_spec(num_or(info.margin_main_end, zero()));
    let start = p1.sub_spec(info.main);
    &&& pos.sub_req(num_or(info.margin_main_end, zero()))
    &&& p1.sub_req(info.main)
    &&& start.sub_req(num_or(info.margin_main_start, zero()))
    &&& start.sub_spec(num_or(info.margin_main_start, zero())).sub_req(per)
}

/// Places an item at its size from the end (see `main_calc_reverse_spec`).
pub fn main_calc_reverse<K, T: Copy + Sub<Output = T> + From<u8>>(info: &RelNodeInfo<K, T>, per: T, pos: &mut T) -> (r: (T, T))
    requires
        (T::obeys_sub_spec() && T::obeys_from_spec() && main_calc_reverse_req(*info, per, *old(pos)))
            || (sub_total::<T>()),
    ensures
        T::obeys_sub_spec() && T::obeys_from_spec() ==> (r == (main_calc_reverse_spec(*info, per, *old(pos)).0, main_calc_reverse_spec(*info, per, *old(pos)).1)),
        T::obeys_sub_spec() && T::obeys_from_spec() ==> (*final(pos) == main_calc_reverse_spec(*info, per, *old(pos)).2),
{
    let start = *pos - info.margin_main_end.or_else(T::from(0u8)) - info.main;
    *pos = start - info.margin_main_start.or_else(T::from(0u8)) - per;
    (start, info.main)
}

/// A defined `Px` margin in whole pixels, `fallback` where it is undefined.
pub open spec fn px_margin(m: Number<Px>, fallback: int) -> int {
    match m {
        Number::Defined(v) => v.0 as int,
        Number::Undefined => fallback,
    }
}

/// Main-axis placement with `Px` lengths, from the start: an item begins
/// after its start margin, and the next position lies past the item and its
/// end margin (and the gap `per` for `main_calc`); `auto` margins take `per`;
/// a growing item's size is its main size plus `grow * per`, a shrinking
/// one's its main size less `shrink * per`. From the end: the item with its
/// end margin ends at the position, and the next position lies before the
/// item and its start margin (and the gap for `main_calc_reverse`; with
/// `auto` margins before the item by its end margin once more).
pub proof fn lemma_main_axis_placement_px<K>(info: RelNodeInfo<K, Px>, per: Px, pos: Px)
    ensures
        ({
            let ms = px_margin(info.margin_main_start, 0);
            let me = px_margin(info.margin_main_end, 0);
            let grown = info.main.0 + info.grow.0 * per.0;
            let shrunk = info.main.0 - info.shrink.0 * per.0;
            &&& grow_calc_req(info, per, pos) ==> {
                let r = grow_calc_spec(info, per, pos);
                r.0.0 == pos.0 + ms && r.1.0 == grown && r.2.0 == r.0.0 + grown + me
            }
            &&& grow_calc_reverse_req(info, per, pos) ==> {
                let r = grow_calc_reverse_spec(info, per, pos);
                r.1.0 == grown && r.0.0 + grown + me == pos.0 && r.2.0 == r.0.0 - ms
            }
            &&& shrink_calc_req(info, per, pos) ==> {
                let r = shrink_calc_spec(info, per, pos);
                r.0.0 == pos.0 + ms && r.1.0 == shrunk && r.2.0 == r.0.0 + shrunk + me
            }
            &&& shrink_calc_reverse_req(info, per, pos) ==> {
                let r = shrink_calc_reverse_spec(info, per, pos);
                r.1.0 == shrunk && r.0.0 + shrunk + me == pos.0 && r.2.0 == r.0.0 - ms
            }
            &&& main_calc_req(info, per, pos) ==> {
                let r = main_calc_spec(info, per, pos);
                r.0.0 == pos.0 + ms && r.1 == info.main && r.2.0 == r.0.0 + info.main.0 + me + per.0
            }
            &&& main_calc_reverse_req(info, per, pos) ==> {
                let r = main_calc_reverse_spec(info, per, pos);
                r.1 == info.main && r.0.0 + info.main.0 + me == pos.0 && r.2.0 == r.0.0 - ms - per.0
            }
            &&& margin_calc_req(info, per, pos) ==> {
                let r = margin_calc_spec(info, per, pos);
                let am = px_margin(info.margin_main_start, per.0 as int);
                let bm = px_margin(info.margin_main_end, per.0 as int);
                r.0.0 == pos.0 + am && r.1 == info.main && r.2.0 == r.0.0 + info.main.0 + bm
            }
            &&& margin_calc_reverse_req(info, per, pos) ==> {
                let r = margin_calc_reverse_spec(info, per, pos);
                let bm = px_margin(info.margin_main_end, per.0 as int);
                r.1 == info.main && r.0.0 + info.main.0 + bm == pos.0 && r.2.0 == r.0.0 - bm
            }
        }),
{
}

/// Cross-axis placement at the start: after the start margin, at the item's
/// cross size. Gives (position, size).
pub open spec fn align_start_spec<K, T: Add<Output = T> + From<u8>>(start: T, info: RelNodeInfo<K, T>) -> (T, T) {
    (start.add_spec(num_or(info.margin_cross_start, zero())), info.cross)
}

/// Places an item at the cross-axis start (see `align_start_spec`).
pub fn align_start<K, T: Copy + Add<Output = T> + From<u8>>(start: T, _end: T, info: &RelNodeInfo<K, T>) -> (r: (T, T))
    requires
        (T::obeys_add_spec() && T::obeys_from_spec() && start.add_req(num_or(info.margin_cross_start, zero())))
            || (add_total::<T>()),
    ensures
        T::obeys_add_spec() && T::obeys_from_spec() ==> (r == align_start_spec(start, *info)),
{
    (start + info.margin_cross_start.or_else(T::from(0u8)), info.cross)
}

/// Cross-axis placement at the end: before the end margin.
pub open spec fn align_end_spec<K, T: Sub<Output = T> + From<u8>>(end: T, info: RelNodeInfo<K, T>) -> (T, T) {
    (end.sub_spec(num_or(info.margin_cross_end, zero())).sub_spec(info.cross), info.cross)
}

/// Places an item at the cross-axis end (see `align_end_spec`).
pub fn align_end<K, T: Copy + Sub<Output = T> + From<u8>>(_start: T, end: T, info: &RelNodeInfo<K, T>) -> (r: (T, T))
    requires
        (T::obeys_sub_spec() && T::obeys_from_spec() && end.sub_req(num_or(info.margin_cross_end, zero())) && end.sub_spec(num_or(info.margin_cross_end, zero())).sub_req(info.cross))
            || (sub_total::<T>()),
    ensures
        T::obeys_sub_spec() && T::obeys_from_spec() ==> (r == align_end_spec(end, *info)),
{
    (end - info.margin_cross_end.or_else(T::from(0u8)) - info.cross, info.cross)
}

/// Cross-axis placement in the centre: with both margins defined, centred in
/// the space between them; with one margin defined, against that side; with
/// none, centred in the line.
pub open spec fn align_center_spec<K, T: Add<Output = T> + Sub<Output = T> + Div<Output = T> + From<u8>>(start: T, end: T, info: RelNodeInfo<K, T>) -> (T, T) {
    match (info.margin_cross_start, info.margin_cross_end) {
        (Number::Defined(r), Number::Defined(rr)) => (
            start.add_spec(end).sub_spec(info.cross).sub_spec(r).sub_spec(rr).div_spec(two()).add_spec(r),
            info.cross,
        ),
        (Number::Defined(r), _) => (start.add_spec(r), info.cross),
        (_, Number::Defined(rr)) => (end.sub_spec(rr).sub_spec(info.cross), info.cross),
        _ => (start.add_spec(end).sub_spec(info.cross).div_spec(two()), info.cross),
    }
}

/// The operations of `align_center_spec` are defined.
pub open spec fn align_center_req<K, T: Add<Output = T> + Sub<Output = T> + Div<Output = T> + From<u8>>(start: T, end: T, info: RelNodeInfo<K, T>) -> bool {
    match (info.margin_cross_start, info.margin_cross_end) {
        (Number::Defined(r), Number::Defined(rr)) => {
            let a = start.add_spec(end);
            let b = a.sub_spec(info.cross);
            let c = b.sub_spec(r);
            let d = c.sub_spec(rr);
            &&& start.add_req(end)
            &&& a.sub_req(info.cross)
            &&& b.sub_req(r)
            &&& c.sub_req(rr)
            &&& d.div_req(two())
            &&& d.div_spec(two()).add_req(r)
        },
        (Number::Defined(r), _) => start.add_req(r),
        (_, Number::Defined(rr)) => end.sub_req(rr) && end.sub_spec(rr).sub_req(info.cross),
        _ => {
            let a = start.add_spec(end);
            &&& start.add_req(end)
            &&& a.sub_req(info.cross)
            &&& a.sub_spec(info.cross).div_req(two())
        },
    }
}

/// Places an item in the cross-axis centre (see `align_center_spec`).
pub fn align_center<K, T: Copy + Add<Output = T> + Sub<Output = T> + Div<Output = T> + From<u8>>(start: T, end: T, info: &RelNodeInfo<K, T>) -> (r: (T, T))
    requires
        (T::obeys_add_spec() && T::obeys_sub_spec() && T::obeys_div_spec() && T::obeys_from_spec() && align_center_req(start, end, *info))
            || (add_total::<T>() && sub_total::<T>() && div_total::<T>()),
    ensures
        T::obeys_add_spec() && T::obeys_sub_spec() && T::obeys_div_spec() && T::obeys_from_spec() ==> (r == align_center_spec(start, end, *info)),
{
    if let (Number::Defined(r), Number::Defined(rr)) = (info.margin_cross_start, info.margin_cross_end) {
        ((start + end - info.cross - r - rr) / T::from(2u8) + r, info.cross)
    } else if let (Number::Defined(r), _) = (info.margin_cross_start, info.margin_cross_end) {
        (start + r, info.cross)
    } else if let (_, Number::Defined(rr)) = (info.margin_cross_start, info.margin_cross_end) {
        (end - rr - info.cross, info.cross)
    } else {
        ((start + end - info.cross) / T::from(2u8), info.cross)
    }
}

/// Cross-axis stretching: from after the start margin to before the end margin.
pub open spec fn align_stretch_spec<K, T: Add<Output = T> + Sub<Output = T> + From<u8>>(start: T, end: T, info: RelNodeInfo<K, T>) -> (T, T) {
    let r = num_or(info.margin_cross_start, zero());
    let rr = num_or(info.margin_cross_end, zero());
    (start.add_spec(r), end.sub_spec(r).sub_spec(rr))
}

/// With `Px` lengths and no cross margins, `align_center` centres the item
/// on the line up to the half pixel that division drops, and an item larger
/// than the line overhangs it on both sides: it starts at or before the
/// line's start (below zero for a line at zero) and ends at or after its end.
pub proof fn lemma_center_overhangs_px<K>(start: Px, end: Px, info: RelNodeInfo<K, Px>)
    requires
        info.margin_cross_start is Undefined,
        info.margin_cross_end is Undefined,
        align_center_req(start, end, info),
    ensures
        -1 <= 2 * align_center_spec(start, end, info).0.0 - (start.0 + end.0 - info.cross.0) <= 1,
        align_center_spec(start, end, info).1 == info.cross,
        info.cross.0 > end.0 - start.0 ==> align_center_spec(start, end, info).0.0 <= start.0
            && align_center_spec(start, end, info).0.0 + info.cross.0 >= end.0,
{
    let x = start.0 + end.0 - info.cross.0;
    let p = align_center_spec(start, end, info).0.0 as int;
    if x >= 0 {
        assert(p == x / 2);
    } else {
        assert(p == -((-x) / 2));
    }
}

/// Stretches an item over the line (see `align_stretch_spec`).
pub fn align_stretch<K, T: Copy + Add<Output = T> + Sub<Output = T> + From<u8>>(start: T, end: T, info: &RelNodeInfo<K, T>) -> (r: (T, T))
    requires
        (T::obeys_add_spec() && T::obeys_sub_spec() && T::obeys_from_spec() && start.add_req(num_or(info.margin_cross_start, zero())) && end.sub_req(num_or(info.margin_cross_start, zero())) && end.sub_spec(num_or(info.margin_cross_start, zero())).sub_req(num_or(info.margin_cross_end, zero())))
            || (add_total::<T>() && sub_total::<T>()),
    ensures
        T::obeys_add_spec() && T::obeys_sub_spec() && T::obeys_from_spec() ==> (r == align_stretch_spec(start, end, *info)),
{
    let r = info.margin_cross_start.or_else(T::from(0u8));
    let rr = info.margin_cross_end.or_else(T::from(0u8));
    (start + r, end - r - rr)
}

/// Baseline alignment: once a baseline is known the item ends on it; the first
/// item sets the baseline at the end of its start-aligned box.
/// Gives (position, size, baseline afterwards).
pub open spec fn align_baseline_spec<K, T: Add<Output = T> + Sub<Output = T> + From<u8>>(start: T, info: RelNodeInfo<K, T>, baseline: Number<T>) -> (T, T, Number<T>) {
    match baseline {
        Number::Defined(b) => (b.sub_spec(info.cross), info.cross, baseline),
        Number::Undefined => {
            let p = start.add_spec(num_or(info.margin_cross_start, zero()));
            (p, info.cross, Number::Defined(p.add_spec(info.cross)))
        },
    }
}

/// The operations of `align_baseline_spec` are defined.
pub open spec fn align_baseline_req<K, T: Add<Output = T> + Sub<Output = T> + From<u8>>(start: T, info: RelNodeInfo<K, T>, baseline: Number<T>) -> bool {
    match baseline {
        Number::Defined(b) => b.sub_req(info.cross),
        Number::Undefined => {
            &&& start.add_req(num_or(info.margin_cross_start, zero()))
            &&& start.add_spec(num_or(info.margin_cross_start, zero())).add_req(info.cross)
        },
    }
}

/// Aligns an item on the line's baseline (see `align_baseline_spec`).
pub fn align_baseline<K, T: Copy + Add<Output = T> + Sub<Output = T> + From<u8>>(start: T, _end: T, info: &RelNodeInfo<K, T>, baseline: &mut Number<T>) -> (r: (T, T))
    requires
        (T::obeys_add_spec() && T::obeys_sub_spec() && T::obeys_from_spec() && align_baseline_req(start, *info, *old(baseline)))
            || (add_total::<T>() && sub_total::<T>()),
    ensures
        T::obeys_add_spec() && T::obeys_sub_spec() && T::obeys_from_spec() ==> (r == (align_baseline_spec(start, *info, *old(baseline)).0, align_baseline_spec(start, *info, *old(baseline)).1)),
        T::obeys_add_spec() && T::obeys_sub_spec() && T::obeys_from_spec() ==> (*final(baseline) == align_baseline_spec(start, *info, *old(baseline)).2),
{
    if let Number::Defined(b) = *baseline {
        (b - info.cross, info.cross)
    } else {
        let r = info.margin_cross_start.or_else(T::from(0u8));
        *baseline = Number::Defined(start + r + info.cross);
        (start + r, info.cross)
    }
}

/// Position and size of an item on the cross axis of its line, by the
/// placement that `cross_align_spec` chooses.
pub open spec fn cross_calc_spec<K, T: Add<Output = T> + Sub<Output = T> + Div<Output = T> + From<u8>>(
    info: RelNodeInfo<K, T>,
    start: T,
    end: T,
    align_items: AlignItems,
    baseline: Number<T>,
) -> (T, T, Number<T>) {
    match cross_align_spec(info.align_self, align_items, !(info.cross_d is Points || info.cross_d is Percent)) {
        CrossAlign::Start => (align_start_spec(start, info).0, align_start_spec(start, info).1, baseline),
        CrossAlign::End => (align_end_spec(end, info).0, align_end_spec(end, info).1, baseline),
        CrossAlign::Center => (align_center_spec(start, end, info).0, align_center_spec(start, end, info).1, baseline),
        CrossAlign::Stretch => (align_stretch_spec(start, end, info).0, align_stretch_spec(start, end, info).1, baseline),
        CrossAlign::Baseline => align_baseline_spec(start, info, baseline),
    }
}

/// The operations of the placement that `cross_align_spec` chooses are defined.
pub open spec fn cross_calc_req<K, T: Add<Output = T> + Sub<Output = T> + Div<Output = T> + From<u8>>(
    info: RelNodeInfo<K, T>,
    start: T,
    end: T,
    align_items: AlignItems,
    baseline: Number<T>,
) -> bool {
    match cross_align_spec(info.align_self, align_items, !(info.cross_d is Points || info.cross_d is Percent)) {
        CrossAlign::Start => start.add_req(num_or(info.margin_cross_start, zero())),
        CrossAlign::End => end.sub_req(num_or(info.margin_cross_end, zero())) && end.sub_spec(
            num_or(info.margin_cross_end, zero()),
        ).sub_req(info.cross),
        CrossAlign::Center => align_center_req(start, end, info),
        CrossAlign::Stretch => {
            &&& start.add_req(num_or(info.margin_cross_start, zero()))
            &&& end.sub_req(num_or(info.margin_cross_start, zero()))
            &&& end.sub_spec(num_or(info.margin_cross_start, zero())).sub_req(num_or(info.margin_cross_end, zero()))
        },
        CrossAlign::Baseline => align_baseline_req(start, info, baseline),
    }
}

/// Places an item on the cross axis of its line (see `cross_calc_spec`).
pub fn cross_calc<K, T: Copy + Add<Output = T> + Sub<Output = T> + Div<Output = T> + From<u8>>(
    info: &RelNodeInfo<K, T>,
    start: T,
    end: T,
    align_items: AlignItems,
    baseline: &mut Number<T>,
) -> (r: (T, T))
    requires
        (T::obeys_add_spec() && T::obeys_sub_spec() && T::obeys_div_spec() && T::obeys_from_spec() && cross_calc_req(*info, start, end, align_items, *old(baseline)))
            || (add_total::<T>() && sub_total::<T>() && div_total::<T>()),
    ensures
        T::obeys_add_spec() && T::obeys_sub_spec() && T::obeys_div_spec() && T::obeys_from_spec() ==> ({
            let c = cross_calc_spec(*info, start, end, align_items, *old(baseline));
            r == (c.0, c.1)
        }),
        T::obeys_add_spec() && T::obeys_sub_spec() && T::obeys_div_spec() && T::obeys_from_spec() ==> (*final(baseline) == cross_calc_spec(*info, start, end, align_items, *old(baseline)).2),
{
    match cross_align(info.align_self, align_items, info.cross_d.is_undefined()) {
        CrossAlign::Start => align_start(start, end, info),
        CrossAlign::End => align_end(start, end, info),
        CrossAlign::Center => align_center(start, end, info),
        CrossAlign::Stretch => align_stretch(start, end, info),
        CrossAlign::Baseline => align_baseline(start, end, info, baseline),
    }
}

/// With `Px` lengths, `cross_calc` puts an item on its line where its own
/// `align_self` asks, or for `Auto` where the container's `align_items`
/// asks: a start request at the line's start after the item's start margin;
/// an end request so that the item with its end margin ends at the line's
/// end; a centre request centred on the line (up to the half pixel that
/// division drops) when it has no cross margins, against its one defined
/// margin when it has one, and centred between both when it has both; a
/// stretch or baseline request of an item without a cross size stretches it
/// from after its start margin over `end` less both margins, and aligns an
/// item with a cross size on the line's baseline: its end at a baseline the
/// line already has, or else after its start margin, its end becoming the
/// line's baseline. Only stretching changes an item's cross size, and only
/// the first baseline-aligned item sets the baseline.
pub proof fn lemma_cross_calc_places_px<K>(info: RelNodeInfo<K, Px>, start: Px, end: Px, align_items: AlignItems, baseline: Number<Px>)
    requires
        cross_calc_req(info, start, end, align_items, baseline),
    ensures
        ({
            let r = cross_calc_spec(info, start, end, align_items, baseline);
            let a = info.align_self;
            let asks_start = a == AlignSelf::FlexStart || (a == AlignSelf::Auto && align_items == AlignItems::FlexStart);
            let asks_end = a == AlignSelf::FlexEnd || (a == AlignSelf::Auto && align_items == AlignItems::FlexEnd);
            let asks_center = a == AlignSelf::Center || (a == AlignSelf::Auto && align_items == AlignItems::Center);
            let undefined_cross = !(info.cross_d is Points || info.cross_d is Percent);
            let ms: int = match info.margin_cross_start {
                Number::Defined(v) => v.0 as int,
                Number::Undefined => 0,
            };
            let me: int = match info.margin_cross_end {
                Number::Defined(v) => v.0 as int,
                Number::Undefined => 0,
            };
            let free = start.0 + end.0 - info.cross.0 - ms - me;
            &&& asks_start ==> r.0.0 == start.0 + ms && r.1 == info.cross && r.2 == baseline
            &&& asks_end ==> r.0.0 + info.cross.0 + me == end.0 && r.1 == info.cross && r.2 == baseline
            &&& asks_center ==> r.1 == info.cross && r.2 == baseline && {
                &&& info.margin_cross_start is Defined == info.margin_cross_end is Defined
                    ==> -1 <= 2 * (r.0.0 - ms) - free <= 1
                &&& info.margin_cross_start is Defined && info.margin_cross_end is Undefined
                    ==> r.0.0 == start.0 + ms
                &&& info.margin_cross_start is Undefined && info.margin_cross_end is Defined
                    ==> r.0.0 + info.cross.0 + me == end.0
            }
            &&& !asks_start && !asks_end && !asks_center && undefined_cross
                ==> r.0.0 == start.0 + ms && r.1.0 == end.0 - ms - me && r.2 == baseline
            &&& !asks_start && !asks_end && !asks_center && !undefined_cross ==> r.1 == info.cross && {
                &&& baseline matches Number::Defined(b) ==> r.0.0 + info.cross.0 == b.0 && r.2 == baseline
                &&& baseline is Undefined ==> r.0.0 == start.0 + ms
                    && (r.2 matches Number::Defined(nb) && nb.0 == r.0.0 + info.cross.0)
            }
        }),
{
    let r = cross_calc_spec(info, start, end, align_items, baseline);
    let ms: int = match info.margin_cross_start {
        Number::Defined(v) => v.0 as int,
        Number::Undefined => 0,
    };
    let me: int = match info.margin_cross_end {
        Number::Defined(v) => v.0 as int,
        Number::Undefined => 0,
    };
    let free = start.0 + end.0 - info.cross.0 - ms - me;
    let p = r.0.0 as int;
    if cross_align_spec(info.align_self, align_items, !(info.cross_d is Points || info.cross_d is Percent)) == CrossAlign::Center
        && (info.margin_cross_start is Defined == info.margin_cross_end is Defined) {
        if free >= 0 {
            assert(p - ms == free / 2);
        } else {
            assert(p - ms == -((-free) / 2));
        }
    }
}

/// A styled size resolved against the parent: points as they are, a
/// percentage of the parent, undefined otherwise.
pub open spec fn calc_number_spec<T: Mul<Output = T>>(s: Dimension<T>, parent: T) -> Number<T> {
    match s {
        Dimension::Points(r) => Number::Defined(r),
        Dimension::Percent(r) => Number::Defined(parent.mul_spec(r)),
        _ => Number::Undefined,
    }
}

/// Resolves a child's styled size (see `calc_number_spec`).
pub fn calc_number<T: Copy + Mul<Output = T>>(s: Dimension<T>, parent: T) -> (r: Number<T>)
    requires
        resolve_req(s, parent),
    ensures
        s is Points ==> r == calc_number_spec(s, parent),
        s is Percent ==> r is Defined,
        T::obeys_mul_spec() ==> r == calc_number_spec(s, parent),
        !(s is Points || s is Percent) ==> r is Undefined,
{
    if let Dimension::Points(r) = s {
        Number::Defined(r)
    } else if let Dimension::Percent(r) = s {
        Number::Defined(parent * r)
    } else {
        Number::Undefined
    }
}

/// A styled offset or margin resolved against the parent: as `calc_number_spec`,
/// except that an undefined one is zero and only `auto` stays undefined.
pub open spec fn calc_location_number_spec<T: Mul<Output = T> + From<u8>>(s: Dimension<T>, parent: T) -> Number<T> {
    match s {
        Dimension::Points(r) => Number::Defined(r),
        Dimension::Percent(r) => Number::Defined(parent.mul_spec(r)),
        Dimension::Undefined => Number::Defined(zero()),
        Dimension::Auto => Number::Undefined,
    }
}

/// Resolves a styled offset or margin (see `calc_location_number_spec`).
pub fn calc_location_number<T: Copy + Mul<Output = T> + From<u8>>(s: Dimension<T>, parent: T) -> (r: Number<T>)
    requires
        resolve_req(s, parent),
    ensures
        s is Points ==> r == calc_location_number_spec(s, parent),
        s is Auto ==> r is Undefined,
        !(s is Auto) ==> r is Defined,
        T::obeys_mul_spec() && T::obeys_from_spec() ==> r == calc_location_number_spec(s, parent),
{
    if let Dimension::Points(r) = s {
        Number::Defined(r)
    } else if let Dimension::Percent(r) = s {
        Number::Defined(parent * r)
    } else if let Dimension::Undefined = s {
        Number::Defined(T::from(0u8))
    } else {
        Number::Undefined
    }
}

/// A relatively positioned item's position after its offsets: moved forward
/// by a defined start offset, otherwise back by a defined end offset.
pub open spec fn calc_pos_spec<T: Add<Output = T> + Sub<Output = T> + Mul<Output = T>>(position_start: Dimension<T>, position_end: Dimension<T>, parent: T, pos: T) -> T {
    match position_start {
        Dimension::Points(r) => pos.add_spec(r),
        Dimension::Percent(r) => pos.add_spec(parent.mul_spec(r)),
        _ => match position_end {
            Dimension::Points(r) => pos.sub_spec(r),
            Dimension::Percent(r) => pos.sub_spec(parent.mul_spec(r)),
            _ => pos,
        },
    }
}

/// The operations of `calc_pos_spec` are defined.
pub open spec fn calc_pos_req<T: Add<Output = T> + Sub<Output = T> + Mul<Output = T>>(position_start: Dimension<T>, position_end: Dimension<T>, parent: T, pos: T) -> bool {
    match position_start {
        Dimension::Points(r) => pos.add_req(r),
        Dimension::Percent(r) => parent.mul_req(r) && pos.add_req(parent.mul_spec(r)),
        _ => match position_end {
            Dimension::Points(r) => pos.sub_req(r),
            Dimension::Percent(r) => parent.mul_req(r) && pos.sub_req(parent.mul_spec(r)),
            _ => true,
        },
    }
}

/// Offsets an item's position (see `calc_pos_spec`).
pub fn calc_pos<T: Copy + Add<Output = T> + Sub<Output = T> + Mul<Output = T>>(position_start: Dimension<T>, position_end: Dimension<T>, parent: T, pos: T) -> (r: T)
    requires
        (T::obeys_add_spec() && T::obeys_sub_spec() && T::obeys_mul_spec() && calc_pos_req(position_start, position_end, parent, pos))
            || (add_total::<T>() && sub_total::<T>() && mul_total::<T>()),
    ensures
        T::obeys_add_spec() && T::obeys_sub_spec() && T::obeys_mul_spec() ==> (r == calc_pos_spec(position_start, position_end, parent, pos)),
{
    if let Dimension::Points(r) = position_start {
        pos + r
    } else if let Dimension::Percent(r) = position_start {
        pos + parent * r
    } else {
        if let Dimension::Points(r) = position_end {
            pos - r
        } else if let Dimension::Percent(r) = position_end {
            pos - parent * r
        } else {
            pos
        }
    }
}

/// Resolves border or padding widths: a percentage on every side is taken of
/// the containing block's width.
pub fn calc_gap_by_containing_block<T: Copy + Default + Mul<Output = T> + From<u8>>(
    containing_block_size: &Size<T>,
    gap: &SideGap<Dimension<T>>,
) -> (r: SideGap<T>)
    requires
        resolve_req(gap.left, containing_block_size.width),
        resolve_req(gap.top, containing_block_size.width),
        resolve_req(gap.right, containing_block_size.width),
        resolve_req(gap.bottom, containing_block_size.width),
    ensures
        T::obeys_mul_spec() && T::obeys_from_spec() ==> r == (SideGap {
            left: resolve_spec(gap.left, containing_block_size.width),
            top: resolve_spec(gap.top, containing_block_size.width),
            right: resolve_spec(gap.right, containing_block_size.width),
            bottom: resolve_spec(gap.bottom, containing_block_size.width),
        }),
{
    SideGap {
        left: gap.left.resolve_value(containing_block_size.width),
        top: gap.top.resolve_value(containing_block_size.width),
        right: gap.right.resolve_value(containing_block_size.width),
        bottom: gap.bottom.resolve_value(containing_block_size.width),
    }
}

/// Places a box of `size` in the span from `start` to `end` by its margins: a
/// defined start margin puts it after that margin, else a defined end margin
/// before that one, else (both `auto`) it is centred. Percent margins are of
/// the containing block's width. Gives (defined size, start).
pub open spec fn calc_margin_spec<T: Add<Output = T> + Sub<Output = T> + Mul<Output = T> + Div<Output = T> + From<u8>>(
    start: T,
    end: T,
    size: T,
    margin_start: Dimension<T>,
    margin_end: Dimension<T>,
    containing_block_width: T,
) -> (Number<T>, T) {
    let (s, e) = match margin_start {
        Dimension::Points(r) => (start.add_spec(r), start.add_spec(r).add_spec(size)),
        Dimension::Percent(r) => {
            let s1 = start.add_spec(r.mul_spec(containing_block_width));
            (s1, s1.add_spec(size))
        },
        _ => match margin_end {
            Dimension::Points(r) => (end.sub_spec(r).sub_spec(size), end.sub_spec(r)),
            Dimension::Percent(r) => {
                let e1 = end.sub_spec(r.mul_spec(containing_block_width));
                (e1.sub_spec(size), e1)
            },
            _ => {
                let d = end.sub_spec(start).sub_spec(size).div_spec(two());
                (start.add_spec(d), end.sub_spec(d))
            },
        },
    };
    (Number::Defined(e.sub_spec(s)), s)
}

/// The operations of `calc_margin_spec` are defined.
pub open spec fn calc_margin_req<T: Add<Output = T> + Sub<Output = T> + Mul<Output = T> + Div<Output = T> + From<u8>>(
    start: T,
    end: T,
    size: T,
    margin_start: Dimension<T>,
    margin_end: Dimension<T>,
    containing_block_width: T,
) -> bool {
    let placed = calc_margin_spec(start, end, size, margin_start, margin_end, containing_block_width);
    let s = placed.1;
    let e = match margin_start {
        Dimension::Points(r) => start.add_spec(r).add_spec(size),
        Dimension::Percent(r) => start.add_spec(r.mul_spec(containing_block_width)).add_spec(size),
        _ => match margin_end {
            Dimension::Points(r) => end.sub_spec(r),
            Dimension::Percent(r) => end.sub_spec(r.mul_spec(containing_block_width)),
            _ => end.sub_spec(end.sub_spec(start).sub_spec(size).div_spec(two())),
        },
    };
    &&& match margin_start {
        Dimension::Points(r) => start.add_req(r) && start.add_spec(r).add_req(size),
        Dimension::Percent(r) => {
            &&& r.mul_req(containing_block_width)
            &&& start.add_req(r.mul_spec(containing_block_width))
            &&& start.add_spec(r.mul_spec(containing_block_width)).add_req(size)
        },
        _ => match margin_end {
            Dimension::Points(r) => end.sub_req(r) && end.sub_spec(r).sub_req(size),
            Dimension::Percent(r) => {
                &&& r.mul_req(containing_block_width)
                &&& end.sub_req(r.mul_spec(containing_block_width))
                &&& end.sub_spec(r.mul_spec(containing_block_width)).sub_req(size)
            },
            _ => {
                let d = end.sub_spec(start).sub_spec(size).div_spec(two());
                &&& end.sub_req(start)
                &&& end.sub_spec(start).sub_req(size)
                &&& end.sub_spec(start).sub_spec(size).div_req(two())
                &&& start.add_req(d)
                &&& end.sub_req(d)
            },
        },
    }
    &&& e.sub_req(s)
}

/// Placing a box by its margins with `Px` lengths: a start margin puts it
/// after `start` and that margin; otherwise an end margin puts it so that it
/// ends, with that margin, at `end`; either way it keeps its size. Without
/// either margin it is centred between `start` and `end`, up to the half
/// pixel that division drops on each side.
pub proof fn lemma_calc_margin_places_px(start: Px, end: Px, size: Px, margin_start: Dimension<Px>, margin_end: Dimension<Px>, containing_block_width: Px)
    requires
        calc_margin_req(start, end, size, margin_start, margin_end, containing_block_width),
    ensures
        ({
            let r = calc_margin_spec(start, end, size, margin_start, margin_end, containing_block_width);
            let ms = px_length(margin_start, containing_block_width);
            let me = px_length(margin_end, containing_block_width);
            let has_start = margin_start is Points || margin_start is Percent;
            let has_end = margin_end is Points || margin_end is Percent;
            let free = end.0 - start.0 - size.0;
            &&& r.0 is Defined
            &&& has_start ==> r.1.0 == start.0 + ms && r.0->0 == size
            &&& !has_start && has_end ==> r.1.0 + size.0 + me == end.0 && r.0->0 == size
            &&& !has_start && !has_end ==> -1 <= 2 * (r.1.0 - start.0) - free <= 1
                && r.1.0 + (r.0->0).0 + (r.1.0 - start.0) == end.0
        }),
{
    let r = calc_margin_spec(start, end, size, margin_start, margin_end, containing_block_width);
    let free = end.0 - start.0 - size.0;
    let d = r.1.0 - start.0;
    let w = containing_block_width.0 as int;
    if let Dimension::Percent(q) = margin_start {
        let qq = q.0 as int;
        assert(qq * w == w * qq) by (nonlinear_arith);
    }
    if let Dimension::Percent(q) = margin_end {
        let qq = q.0 as int;
        assert(qq * w == w * qq) by (nonlinear_arith);
    }
    if !(margin_start is Points || margin_start is Percent) && !(margin_end is Points || margin_end is Percent) {
        if free >= 0 {
            assert(d == free / 2);
        } else {
            assert(d == -((-free) / 2));
        }
    }
}

/// Places a box by its margins (see `calc_margin_spec`).
pub fn calc_margin<T: Copy + Add<Output = T> + Sub<Output = T> + Mul<Output = T> + Div<Output = T> + From<u8>>(
    start: T,
    end: T,
    size: T,
    margin_start: Dimension<T>,
    margin_end: Dimension<T>,
    containing_block_width: T,
) -> (r: (Number<T>, T))
    requires
        (obeys_arith::<T>() && calc_margin_req(start, end, size, margin_start, margin_end, containing_block_width))
            || (ops_total::<T>()),
    ensures
        obeys_arith::<T>() ==> (r == calc_margin_spec(start, end, size, margin_start, margin_end, containing_block_width)),
{
    let mut start = start;
    let mut end = end;
    if let Dimension::Points(r) = margin_start {
        start = start + r;
        end = start + size;
    } else if let Dimension::Percent(r) = margin_start {
        start = start + r * containing_block_width;
        end = start + size;
    } else if let Dimension::Points(r) = margin_end {
        end = end - r;
        start = end - size;
    } else if let Dimension::Percent(r) = margin_end {
        end = end - r * containing_block_width;
        start = end - size;
    } else {
        let d = (end - start - size) / T::from(2u8);
        start = start + d;
        end = end - d;
    }
    (Number::Defined(end - start), start)
}

/// The length of an offset that is in points or percent, as resolved against `parent`.
pub open spec fn is_length<T>(d: Dimension<T>) -> bool {
    d is Points || d is Percent
}

/// Size and position of an absolutely positioned box along one axis, inside a
/// parent of length `parent`; margins in percent are of the containing block's
/// width.
///
/// Without a size, defined start and end offsets (with the margins) give the
/// size and the start; with only the start offset the size stays undefined and
/// the start is the start margin; without a start offset the size stays
/// undefined and the start is the parent length less the end offset and end
/// margin (zero without an end offset). With a size, a start offset puts the
/// box after it and its margin; otherwise an end offset puts it before that
/// offset and its margin; otherwise `align` centres it (0) between the margins,
/// puts it at the end (positive) or at the start margin (negative).
pub open spec fn calc_rect_spec<T: Add<Output = T> + Sub<Output = T> + Mul<Output = T> + Div<Output = T> + From<u8>>(
    start: Dimension<T>,
    end: Dimension<T>,
    size: Number<T>,
    margin_start: Dimension<T>,
    margin_end: Dimension<T>,
    parent: T,
    containing_block_width: T,
    align: isize,
) -> (Number<T>, T) {
    let ms = resolve_spec(margin_start, containing_block_width);
    let me = resolve_spec(margin_end, containing_block_width);
    match size {
        Number::Undefined => if is_length(start) {
            if is_length(end) {
                let rr = resolve_spec(start, parent).add_spec(ms);
                let rrr = resolve_spec(end, parent).add_spec(me);
                (Number::Defined(parent.sub_spec(rr).sub_spec(rrr)), rr)
            } else {
                (Number::Undefined, ms)
            }
        } else {
            (
                Number::Undefined,
                if is_length(end) {
                    parent.sub_spec(resolve_spec(end, parent)).sub_spec(me)
                } else {
                    zero()
                },
            )
        },
        Number::Defined(cs) => if is_length(start) {
            (Number::Defined(cs), resolve_spec(start, parent).add_spec(ms))
        } else if is_length(end) {
            (Number::Defined(cs), parent.sub_spec(resolve_spec(end, parent)).sub_spec(me).sub_spec(cs))
        } else if align == 0 {
            let s = parent.sub_spec(cs).div_spec(two());
            calc_margin_spec(s, s.add_spec(cs), cs, margin_start, margin_end, containing_block_width)
        } else if align > 0 {
            (Number::Defined(cs), parent.sub_spec(me).sub_spec(cs))
        } else {
            (Number::Defined(cs), ms)
        },
    }
}

/// The operations of `calc_rect_spec` are defined.
pub open spec fn calc_rect_req<T: Add<Output = T> + Sub<Output = T> + Mul<Output = T> + Div<Output = T> + From<u8>>(
    start: Dimension<T>,
    end: Dimension<T>,
    size: Number<T>,
    margin_start: Dimension<T>,
    margin_end: Dimension<T>,
    parent: T,
    containing_block_width: T,
    align: isize,
) -> bool {
    let ms = resolve_spec(margin_start, containing_block_width);
    let me = resolve_spec(margin_end, containing_block_width);
    &&& resolve_req(margin_start, containing_block_width)
    &&& resolve_req(margin_end, containing_block_width)
    &&& resolve_req(start, parent)
    &&& resolve_req(end, parent)
    &&& match size {
        Number::Undefined => if is_length(start) {
            is_length(end) ==> {
                let rr = resolve_spec(start, parent).add_spec(ms);
                let rrr = resolve_spec(end, parent).add_spec(me);
                &&& resolve_spec(start, parent).add_req(ms)
                &&& resolve_spec(end, parent).add_req(me)
                &&& parent.sub_req(rr)
                &&& parent.sub_spec(rr).sub_req(rrr)
            }
        } else {
            is_length(end) ==> {
                &&& parent.sub_req(resolve_spec(end, parent))
                &&& parent.sub_spec(resolve_spec(end, parent)).sub_req(me)
            }
        },
        Number::Defined(cs) => if is_length(start) {
            resolve_spec(start, parent).add_req(ms)
        } else if is_length(end) {
            let a = parent.sub_spec(resolve_spec(end, parent));
            &&& parent.sub_req(resolve_spec(end, parent))
            &&& a.sub_req(me)
            &&& a.sub_spec(me).sub_req(cs)
        } else if align == 0 {
            let s = parent.sub_spec(cs).div_spec(two());
            &&& parent.sub_req(cs)
            &&& parent.sub_spec(cs).div_req(two())
            &&& s.add_req(cs)
            &&& calc_margin_req(s, s.add_spec(cs), cs, margin_start, margin_end, containing_block_width)
        } else if align > 0 {
            parent.sub_req(me) && parent.sub_spec(me).sub_req(cs)
        } else {
            true
        },
    }
}

/// A length in whole pixels against `base`: points as they are, a
/// percentage as `base` times it, zero for any other length.
pub open spec fn px_length(d: Dimension<Px>, base: Px) -> int {
    match d {
        Dimension::Points(p) => p.0 as int,
        Dimension::Percent(q) => base.0 * q.0,
        _ => 0,
    }
}

/// With `Px` lengths, `calc_rect` places an absolutely positioned box as its
/// offsets and margins say. With a size: a start offset puts the box after
/// that offset and its start margin; otherwise an end offset puts it so that
/// it ends, with its end margin, at that offset from the parent's end;
/// otherwise a positive `align` puts it at the end before its end margin and
/// a negative one at the start after its start margin. Without a size: both
/// offsets make the box span the space between them and its margins; only a
/// start offset leaves the size undefined and starts the box at its start
/// margin; only an end offset leaves it undefined and starts it at the
/// parent's length less the offset and the end margin.
pub proof fn lemma_calc_rect_places_px(
    start: Dimension<Px>,
    end: Dimension<Px>,
    size: Number<Px>,
    margin_start: Dimension<Px>,
    margin_end: Dimension<Px>,
    parent: Px,
    containing_block_width: Px,
    align: isize,
)
    requires
        calc_rect_req(start, end, size, margin_start, margin_end, parent, containing_block_width, align),
    ensures
        ({
            let r = calc_rect_spec(start, end, size, margin_start, margin_end, parent, containing_block_width, align);
            let s = px_length(start, parent);
            let e = px_length(end, parent);
            let ms = px_length(margin_start, containing_block_width);
            let me = px_length(margin_end, containing_block_width);
            let has_start = start is Points || start is Percent;
            let has_end = end is Points || end is Percent;
            &&& (size matches Number::Defined(cs) ==> r.0 == size && {
                &&& has_start ==> r.1.0 == s + ms
                &&& !has_start && has_end ==> r.1.0 + cs.0 + me + e == parent.0
                &&& !has_start && !has_end && align > 0 ==> r.1.0 + cs.0 + me == parent.0
                &&& !has_start && !has_end && align < 0 ==> r.1.0 == ms
            })
            &&& (size is Undefined && has_start && has_end ==> (r.0 matches Number::Defined(w)
                && r.1.0 == s + ms && r.1.0 + w.0 + me + e == parent.0))
            &&& (size is Undefined && has_start && !has_end ==> r.0 is Undefined && r.1.0 == ms)
            &&& (size is Undefined && !has_start && has_end ==> r.0 is Undefined && r.1.0 + me + e == parent.0)
            &&& (size is Undefined && !has_start && !has_end ==> r.0 is Undefined && r.1.0 == 0)
        }),
{
}

/// Sizes and places an absolutely positioned box along one axis (see
/// `calc_rect_spec`). Centring halves the free space by dividing by two.
pub fn calc_rect<T: Copy + Add<Output = T> + Sub<Output = T> + Mul<Output = T> + Div<Output = T> + From<u8>>(
    start: Dimension<T>,
    end: Dimension<T>,
    size: Number<T>,
    margin_start: Dimension<T>,
    margin_end: Dimension<T>,
    parent: T,
    containing_block_width: T,
    align: isize,
) -> (r: (Number<T>, T))
    requires
        (obeys_arith::<T>() && calc_rect_req(start, end, size, margin_start, margin_end, parent, containing_block_width, align))
            || (ops_total::<T>()),
    ensures
        obeys_arith::<T>() ==> (r == calc_rect_spec(start, end, size, margin_start, margin_end, parent, containing_block_width, align)),
{
    let calc_size = if let Number::Defined(r) = size {
        r
    } else {
        // both offsets give the size
        let mut rr = if let Dimension::Points(rr) = start {
            rr
        } else if let Dimension::Percent(rr) = start {
            parent * rr
        } else {
            return (
                Number::Undefined,
                if let Dimension::Points(rrr) = end {
                    parent - rrr - margin_end.resolve_value(containing_block_width)
                } else if let Dimension::Percent(rrr) = end {
                    parent - parent * rrr - margin_end.resolve_value(containing_block_width)
                } else {
                    T::from(0u8)
                },
            );
        };
        let mut rrr = if let Dimension::Points(rrr) = end {
            rrr
        } else if let Dimension::Percent(rrr) = end {
            parent * rrr
        } else {
            return (Number::Undefined, margin_start.resolve_value(containing_block_width));
        };
        rr = rr + margin_start.resolve_value(containing_block_width);
        rrr = rrr + margin_end.resolve_value(containing_block_width);
        return (Number::Defined(parent - rr - rrr), rr);
    };
    let calc_start = if let Dimension::Points(rr) = start {
        // a size and a start offset: the end offset is ignored
        rr
    } else if let Dimension::Percent(rr) = start {
        parent * rr
    } else {
        let rrr = if let Dimension::Points(rrr) = end {
            rrr
        } else if let Dimension::Percent(rrr) = end {
            parent * rrr
        } else {
            if align == 0 {
                // centred
                let s = (parent - calc_size) / T::from(2u8);
                return calc_margin(s, s + calc_size, calc_size, margin_start, margin_end, containing_block_width);
            } else if align > 0 {
                // at the end
                return (
                    Number::Defined(calc_size),
                    parent - margin_end.resolve_value(containing_block_width) - calc_size,
                );
            } else {
                // at the start
                return (Number::Defined(calc_size), margin_start.resolve_value(containing_block_width));
            }
        };
        return (
            Number::Defined(calc_size),
            parent - rrr - margin_end.resolve_value(containing_block_width) - calc_size,
        );
    };
    (Number::Defined(calc_size), calc_start + margin_start.resolve_value(containing_block_width))
}

/// `value` raised to a defined minimum where below it, then lowered to a
/// defined maximum where above it.
pub open spec fn min_max_spec<T: PartialOrd>(value: T, min_value: Number<T>, max_value: Number<T>) -> T {
    let v = match min_value {
        Number::Defined(r) => if value.is_lt(&r) {
            r
        } else {
            value
        },
        Number::Undefined => value,
    };
    match max_value {
        Number::Defined(r) => if v.is_gt(&r) {
            r
        } else {
            v
        },
        Number::Undefined => v,
    }
}

/// Clamps `value` between the defined bounds (see `min_max_spec`).
pub fn min_max_calc<T: Copy + PartialOrd>(value: T, min_value: Number<T>, max_value: Number<T>) -> (r: T)
    ensures
        T::obeys_partial_cmp_spec() ==> r == min_max_spec(value, min_value, max_value),
        r == value || min_value == Number::Defined(r) || max_value == Number::Defined(r),
{
    let mut value = value;
    if let Number::Defined(r) = min_value {
        if value < r {
            value = r;
        }
    }
    if let Number::Defined(r) = max_value {
        if value > r {
            value = r;
        }
    }
    value
}

/// A defined length clamped between the bounds; an undefined one stays undefined.
pub fn calc_length<T: Copy + PartialOrd>(length: Number<T>, min_value: Number<T>, max_value: Number<T>) -> (r: Number<T>)
    ensures
        length is Undefined ==> r == length,
        length is Defined ==> r is Defined,
        T::obeys_partial_cmp_spec() && length is Defined ==> r == Number::Defined(min_max_spec(length->0, min_value, max_value)),
{
    match length {
        Number::Defined(r) => Number::Defined(min_max_calc(r, min_value, max_value)),
        Number::Undefined => length,
    }
}

/// The larger of two values: `b` where `a` is below it, `a` otherwise.
pub open spec fn max_spec<T: PartialOrd>(a: T, b: T) -> T {
    if a.is_lt(&b) {
        b
    } else {
        a
    }
}

/// Clamping, maxima and offsets with `Px` lengths: a clamped value never
/// exceeds a defined maximum, reaches at least a defined minimum that is not
/// above the maximum, and is the value itself where that lies within the
/// bounds; the larger of two values is at least each and one of them; an
/// item's position moves forward by its start offset, or, without one, back
/// by its end offset, and stays without either.
pub proof fn lemma_clamp_and_offset_px(value: Px, min_value: Number<Px>, max_value: Number<Px>, a: Px, b: Px, position_start: Dimension<Px>, position_end: Dimension<Px>, parent: Px, pos: Px)
    ensures
        ({
            let r = min_max_spec(value, min_value, max_value);
            let lo_ok = min_value matches Number::Defined(lo) ==> lo.0 <= value.0;
            let hi_ok = max_value matches Number::Defined(hi) ==> value.0 <= hi.0;
            &&& max_value matches Number::Defined(hi) ==> r.0 <= hi.0
            &&& min_value matches Number::Defined(lo) ==> (max_value matches Number::Defined(hi) ==> lo.0 <= hi.0 ==> lo.0 <= r.0)
            &&& min_value matches Number::Defined(lo) ==> max_value is Undefined ==> lo.0 <= r.0
            &&& lo_ok && hi_ok ==> r == value
        }),
        max_spec(a, b).0 >= a.0 && max_spec(a, b).0 >= b.0 && (max_spec(a, b) == a || max_spec(a, b) == b),
        calc_pos_req(position_start, position_end, parent, pos) ==> {
            let r = calc_pos_spec(position_start, position_end, parent, pos);
            let has_start = position_start is Points || position_start is Percent;
            let has_end = position_end is Points || position_end is Percent;
            &&& has_start ==> r.0 == pos.0 + px_length(position_start, parent)
            &&& !has_start && has_end ==> r.0 == pos.0 - px_length(position_end, parent)
            &&& !has_start && !has_end ==> r == pos
        },
{
}

/// The larger of two values (see `max_spec`).
pub fn max_value<T: Copy + PartialOrd>(a: T, b: T) -> (r: T)
    ensures
        T::obeys_partial_cmp_spec() ==> r == max_spec(a, b),
        r == a || r == b,
{
    if a < b {
        b
    } else {
        a
    }
}

/// What the cached entry of a child holds besides its item data.
#[derive(PartialEq, PartialOrd, Debug)]
pub enum TempNodeType<K, T> {
    /// A node of fixed size.
    Fixed,
    /// A node of automatic size whose layout is done.
    AutoOk,
    /// A node of automatic size, with its own cached children.
    R(TempNode<K, T>),
    /// A character, by its index in the text.
    CharIndex(usize),
}

impl<K, T> Default for TempNodeType<K, T> {
    fn default() -> (r: Self)
        ensures
            r is Fixed,
    {
        TempNodeType::Fixed
    }
}

/// The cached children of a container: its flex properties, its absolutely
/// and relatively positioned children, and its main axis.
#[derive(PartialEq, PartialOrd, Debug)]
pub struct TempNode<K, T> {
    pub flex: ContainerStyle<T>,
    /// (id, first child, last child, flags, is text) of each absolutely positioned child.
    pub abs_vec: Vec<(K, K, K, NodeState, bool)>,
    /// The item data and cache of each relatively positioned child.
    pub rel_vec: Vec<(RelNodeInfo<K, T>, TempNodeType<K, T>)>,
    /// The main axis is horizontal.
    pub row: bool,
    /// Some child is sized in percent.
    pub children_percent: bool,
}

impl<K, T: Default> Default for TempNode<K, T> {
    /// No children, a row-less default container.
    fn default() -> (r: Self)
        ensures
            r.flex.flex_direction == FlexDirection::Row,
            r.flex.flex_wrap == FlexWrap::NoWrap,
            r.flex.justify_content == JustifyContent::FlexStart,
            r.flex.align_items == AlignItems::FlexStart,
            r.flex.align_content == AlignContent::Stretch,
            r.abs_vec@.len() == 0,
            r.rel_vec@.len() == 0,
            !r.row,
            !r.children_percent,
    {
        TempNode {
            flex: ContainerStyle::default(),
            abs_vec: Vec::new(),
            rel_vec: Vec::new(),
            row: false,
            children_percent: false,
        }
    }
}

/// An item whose size is in percent, resized against the container: its
/// main size as `main * percent`, its cross size as `cross * percent`.
pub open spec fn fix_percent<K, T: Mul<Output = T>>(info: RelNodeInfo<K, T>, main: T, cross: T) -> RelNodeInfo<K, T> {
    let i1 = match info.main_d {
        Dimension::Percent(p) => RelNodeInfo { main: main.mul_spec(p), ..info },
        _ => info,
    };
    match i1.cross_d {
        Dimension::Percent(p) => RelNodeInfo { cross: cross.mul_spec(p), ..i1 },
        _ => i1,
    }
}

/// The products of `fix_percent` are defined.
pub open spec fn percent_req<K, T: Mul<Output = T>>(info: RelNodeInfo<K, T>, main: T, cross: T) -> bool {
    &&& info.main_d matches Dimension::Percent(p) ==> main.mul_req(p)
    &&& info.cross_d matches Dimension::Percent(p) ==> cross.mul_req(p)
}

/// The children as `reline` adds them: resized by `fix_percent` where some
/// children are sized in percent.
pub open spec fn relined_infos<K, T: Mul<Output = T>>(rel: Seq<(RelNodeInfo<K, T>, TempNodeType<K, T>)>, percent: bool, main: T, cross: T) -> Seq<RelNodeInfo<K, T>> {
    rel.map_values(|e: (RelNodeInfo<K, T>, TempNodeType<K, T>)| if percent {
        fix_percent(e.0, main, cross)
    } else {
        e.0
    })
}

/// The span of one line of a multi-line container and the position after it
/// (see `TempNode::multi_calc`).
pub open spec fn multi_calc_spec<T: Add<Output = T> + Sub<Output = T>>(reverse: bool, cross: T, split: T, pos: T) -> (T, T, T) {
    if !reverse {
        let end = pos.add_spec(cross);
        (pos, end, end.add_spec(split))
    } else {
        let end = pos.sub_spec(cross);
        (end, pos, end.sub_spec(split))
    }
}

/// The operations of `multi_calc_spec` are defined.
pub open spec fn multi_calc_req<T: Add<Output = T> + Sub<Output = T>>(reverse: bool, cross: T, split: T, pos: T) -> bool {
    if !reverse {
        pos.add_req(cross) && pos.add_spec(cross).add_req(split)
    } else {
        pos.sub_req(cross) && pos.sub_spec(cross).sub_req(split)
    }
}

/// With `Px` lengths: an item sized in percent is resized against the
/// container (its main size to `main` times its percentage, its cross size
/// to `cross` times its), and everything else about it stays; a line of a
/// multi-line container spans exactly its cross size, forward from the
/// position, or backward for `WrapReverse`, and the next line starts the gap
/// `split` further on.
pub proof fn lemma_percent_and_lines_px<K>(info: RelNodeInfo<K, Px>, main: Px, cross: Px, reverse: bool, line_cross: Px, split: Px, pos: Px)
    ensures
        percent_req(info, main, cross) ==> {
            let f = fix_percent(info, main, cross);
            &&& (info.main_d matches Dimension::Percent(p) ==> f.main.0 == main.0 * p.0)
            &&& (!(info.main_d is Percent) ==> f.main == info.main)
            &&& (info.cross_d matches Dimension::Percent(p) ==> f.cross.0 == cross.0 * p.0)
            &&& (!(info.cross_d is Percent) ==> f.cross == info.cross)
            &&& f == (RelNodeInfo { main: f.main, cross: f.cross, ..info })
        },
        multi_calc_req(reverse, line_cross, split, pos) ==> {
            let m = multi_calc_spec(reverse, line_cross, split, pos);
            &&& m.1.0 - m.0.0 == line_cross.0
            &&& !reverse ==> m.0 == pos && m.2.0 == m.1.0 + split.0
            &&& reverse ==> m.1 == pos && m.2.0 == m.0.0 - split.0
        },
{
}

impl<K, T: Copy + Default> TempNode<K, T> {
    /// No children yet, with the container's flex properties and axis.
    pub fn new(flex: ContainerStyle<T>, row: bool) -> (r: Self)
        ensures
            r.flex == flex,
            r.row == row,
            r.abs_vec@.len() == 0,
            r.rel_vec@.len() == 0,
            !r.children_percent,
    {
        TempNode { flex, row, abs_vec: Vec::new(), rel_vec: Vec::new(), children_percent: false }
    }

    /// Width and height as (main, cross) for this container.
    pub fn main_cross<U>(&self, w: U, h: U) -> (r: (U, U))
        ensures
            r == (if self.row {
                (w, h)
            } else {
                (h, w)
            }),
    {
        if self.row {
            (w, h)
        } else {
            (h, w)
        }
    }
}

impl<K, T: Copy + Default + Add<Output = T> + Sub<Output = T> + Mul<Output = T> + Div<Output = T>> TempNode<K, T> {
    /// The cross-axis span of a line of size `cross` starting at `pos`, and
    /// `pos` moved past it and the gap `split`; backwards for
    /// `WrapReverse` (see `multi_calc_spec`).
    pub fn multi_calc(&self, cross: T, split: T, pos: &mut T) -> (r: (T, T))
        requires
            (T::obeys_add_spec() && T::obeys_sub_spec()
                && multi_calc_req(self.flex.flex_wrap == FlexWrap::WrapReverse, cross, split, *old(pos)))
                || ops_total::<T>(),
        ensures
            T::obeys_add_spec() && T::obeys_sub_spec() ==> ({
                let s = multi_calc_spec(self.flex.flex_wrap == FlexWrap::WrapReverse, cross, split, *old(pos));
                r == (s.0, s.1) && *final(pos) == s.2
            }),
    {
        let start = *pos;
        if self.flex.flex_wrap != FlexWrap::WrapReverse {
            let end = *pos + cross;
            *pos = end + split;
            (start, end)
        } else {
            let end = *pos - cross;
            *pos = end - split;
            (end, start)
        }
    }
}

impl<K, T: Copy + Default + Add<Output = T> + Sub<Output = T> + Mul<Output = T> + Div<Output = T> + PartialEq + PartialOrd + From<u8>> TempNode<K, T> {
    /// Rebuilds the line statistics from the cached children, resizing the
    /// children sized in percent first where some are (see `fix_percent`
    /// and `line_fold`).
    pub fn reline(&mut self, main: T, cross: T, tolerance: T) -> (r: LineInfo<T>)
        requires
            (obeys_laws::<T>()
                && (old(self).children_percent ==> forall|i: int| 0 <= i < old(self).rel_vec@.len()
                    ==> #[trigger] percent_req(old(self).rel_vec@[i].0, main, cross))
                && line_fold_req(empty_line(), main, relined_infos(old(self).rel_vec@, old(self).children_percent, main, cross), tolerance))
                || ops_total::<T>(),
            2 * old(self).rel_vec@.len() + 2 <= usize::MAX,
        ensures
            final(self).flex == old(self).flex,
            final(self).abs_vec == old(self).abs_vec,
            final(self).row == old(self).row,
            final(self).children_percent == old(self).children_percent,
            final(self).rel_vec@.len() == old(self).rel_vec@.len(),
            forall|i: int| 0 <= i < old(self).rel_vec@.len() ==> (#[trigger] final(self).rel_vec@[i]).1
                == old(self).rel_vec@[i].1,
            forall|i: int| 0 <= i < old(self).rel_vec@.len() ==> (#[trigger] final(self).rel_vec@[i]).0 == (RelNodeInfo {
                main: final(self).rel_vec@[i].0.main,
                cross: final(self).rel_vec@[i].0.cross,
                ..old(self).rel_vec@[i].0
            }),
            !old(self).children_percent ==> forall|i: int| 0 <= i < old(self).rel_vec@.len()
                ==> (#[trigger] final(self).rel_vec@[i]).0 == old(self).rel_vec@[i].0,
            obeys_laws::<T>() && old(self).children_percent ==> forall|i: int| 0 <= i < old(self).rel_vec@.len()
                ==> (#[trigger] final(self).rel_vec@[i]).0 == fix_percent(old(self).rel_vec@[i].0, main, cross),
            r.items@.len() <= old(self).rel_vec@.len(),
            obeys_laws::<T>() ==> r@ == line_fold(empty_line(), main,
                final(self).rel_vec@.map_values(|e: (RelNodeInfo<K, T>, TempNodeType<K, T>)| e.0), tolerance),
    {
        let zero = T::from(0u8);
        let mut line = LineInfo {
            main: zero,
            cross: zero,
            item: LineItem { count: 0, grow: zero, shrink: zero, margin_auto: 0, main: zero, cross: zero },
            items: Vec::new(),
        };
        let n = self.rel_vec.len();
        let mut i: usize = 0;
        while i < n
            invariant
                n == self.rel_vec@.len(),
                n == old(self).rel_vec@.len(),
                2 * n + 2 <= usize::MAX,
                i <= n,
                (obeys_laws::<T>()
                    && (old(self).children_percent ==> forall|j: int| 0 <= j < n
                        ==> #[trigger] percent_req(old(self).rel_vec@[j].0, main, cross))
                    && line_fold_req(empty_line(), main, relined_infos(old(self).rel_vec@, old(self).children_percent, main, cross), tolerance))
                    || ops_total::<T>(),
                self.flex == old(self).flex,
                self.abs_vec == old(self).abs_vec,
                self.row == old(self).row,
                self.children_percent == old(self).children_percent,
                line.item.count <= i,
                line.item.margin_auto <= 2 * i,
                line.items@.len() <= i,
                forall|j: int| 0 <= j < n ==> (#[trigger] self.rel_vec@[j]).1 == old(self).rel_vec@[j].1,
                forall|j: int| i <= j < n ==> (#[trigger] self.rel_vec@[j]).0 == old(self).rel_vec@[j].0,
                forall|j: int| 0 <= j < i ==> (#[trigger] self.rel_vec@[j]).0 == (RelNodeInfo {
                    main: self.rel_vec@[j].0.main,
                    cross: self.rel_vec@[j].0.cross,
                    ..old(self).rel_vec@[j].0
                }),
                !old(self).children_percent ==> forall|j: int| 0 <= j < i ==> (#[trigger] self.rel_vec@[j]).0
                    == old(self).rel_vec@[j].0,
                obeys_laws::<T>() && old(self).children_percent ==> forall|j: int| 0 <= j < i
                    ==> (#[trigger] self.rel_vec@[j]).0 == fix_percent(old(self).rel_vec@[j].0, main, cross),
                obeys_laws::<T>() ==> line@ == line_fold(empty_line(), main,
                    self.rel_vec@.subrange(0, i as int).map_values(|e: (RelNodeInfo<K, T>, TempNodeType<K, T>)| e.0), tolerance),
            decreases n - i,
        {
            let ghost before = self.rel_vec@;
            proof {
                if !ops_total::<T>() && old(self).children_percent {
                    assert(percent_req(old(self).rel_vec@[i as int].0, main, cross));
                }
            }
            if self.children_percent {
                if let Dimension::Percent(rr) = self.rel_vec[i].0.main_d {
                    self.rel_vec[i].0.main = main * rr;
                }
                if let Dimension::Percent(rr) = self.rel_vec[i].0.cross_d {
                    self.rel_vec[i].0.cross = cross * rr;
                }
            }
            proof {
                if !ops_total::<T>() {
                    let infos = relined_infos(old(self).rel_vec@, old(self).children_percent, main, cross);
                    let f = |e: (RelNodeInfo<K, T>, TempNodeType<K, T>)| e.0;
                    lemma_line_fold_req_prefix(empty_line(), main, infos, tolerance, i as int + 1);
                    assert(self.rel_vec@.subrange(0, i as int) =~= before.subrange(0, i as int));
                    assert(infos.subrange(0, i as int + 1).drop_last() =~= infos.subrange(0, i as int));
                    assert(self.rel_vec@.subrange(0, i as int).map_values(f) =~= infos.subrange(0, i as int));
                    assert(infos.subrange(0, i as int + 1).last() == self.rel_vec@[i as int].0);
                    assert(line_fold_req(empty_line(), main, infos.subrange(0, i as int + 1), tolerance));
                    assert(line@ == line_fold(empty_line(), main, infos.subrange(0, i as int), tolerance));
                    assert(line_add_req(line@, main, self.rel_vec@[i as int].0, tolerance));
                }
            }
            line.add(main, &self.rel_vec[i].0, tolerance);
            proof {
                let f = |e: (RelNodeInfo<K, T>, TempNodeType<K, T>)| e.0;
                assert(self.rel_vec@.subrange(0, i as int) =~= before.subrange(0, i as int));
                let s = self.rel_vec@.subrange(0, i as int + 1).map_values(f);
                assert(s.drop_last() =~= self.rel_vec@.subrange(0, i as int).map_values(f));
                assert(s.last() == self.rel_vec@[i as int].0);
            }
            i = i + 1;
        }
        proof {
            assert(self.rel_vec@.subrange(0, n as int) =~= self.rel_vec@);
        }
        line
    }
}


/// The state of laying out one container's children: its border and padding
/// widths, its smallest size, its main and cross sizes as styled, the line
/// length that makes items wrap, its main and cross sizes in pixels, the
/// counts of its children's flags, its cached children and its virtual
/// children.
pub struct CalcContext<K, T: Default> {
    pub border_gap_size: Size<T>,
    pub padding_gap_size: Size<T>,
    pub min_size: Size<T>,
    pub main: Number<T>,
    pub cross: Number<T>,
    pub main_line: T,
    pub main_value: T,
    pub cross_value: T,
    pub state: NodeState,
    pub temp: TempNode<K, T>,
    pub vnode: Vec<K>,
}

/// A size as (main, cross) for the given axis.
pub open spec fn axes<U>(row: bool, w: U, h: U) -> (U, U) {
    if row {
        (w, h)
    } else {
        (h, w)
    }
}

/// The line length of a container: unbounded where it does not wrap, else
/// its main size, or its maximum main size where that is undefined, or
/// unbounded where both are.
pub open spec fn line_length<T>(wrap: FlexWrap, main: Number<T>, max_main: Number<T>, unbounded: T) -> T {
    if wrap == FlexWrap::NoWrap {
        unbounded
    } else if main is Defined {
        main->0
    } else {
        num_or(max_main, unbounded)
    }
}

/// The operations of `CalcContext::new` are defined: the sum of the border
/// and padding widths, and the subtractions of them on each axis.
pub open spec fn context_new_req<T: Copy + Default + Add<Output = T> + Sub<Output = T> + From<u8>>(
    border_gap_size: Size<T>,
    padding_gap_size: Size<T>,
    flex: ContainerStyle<T>,
    size: Size<Number<T>>,
    min_size: Size<Number<T>>,
    max_size: Size<Number<T>>,
    unbounded: T,
) -> bool {
    let row = row_direction(flex.flex_direction);
    let gap = border_gap_size.add_spec(padding_gap_size);
    let (gap_main, gap_cross) = axes(row, gap.width, gap.height);
    let (main, cross) = axes(row, size.width, size.height);
    let (min_main, min_cross) = axes(row, min_size.width, min_size.height);
    let max_main = axes(row, max_size.width, max_size.height).0;
    &&& border_gap_size.add_req(padding_gap_size)
    &&& line_length(flex.flex_wrap, main, max_main, unbounded).sub_req(gap_main)
    &&& num_or(main, num_or(min_main, zero())).sub_req(gap_main)
    &&& num_or(cross, num_or(min_cross, zero())).sub_req(gap_cross)
}

impl<K, T: Copy + Default + Add<Output = T> + Sub<Output = T> + Mul<Output = T> + Div<Output = T> + PartialEq + PartialOrd + From<u8>> CalcContext<K, T> {
    /// The context of a container from its border and padding widths, flex
    /// properties and styled sizes; `unbounded` stands for an infinite length.
    /// On the container's main and cross axes: the line length (see
    /// `line_length`) and the main and cross sizes (styled, else minimum, else
    /// zero), each less the border and padding and at least zero; the
    /// smallest size is the border and padding, raised to the styled minimum.
    pub fn new(
        border_gap_size: Size<T>,
        padding_gap_size: Size<T>,
        flex: ContainerStyle<T>,
        size: Size<Number<T>>,
        min_size: Size<Number<T>>,
        max_size: Size<Number<T>>,
        unbounded: T,
    ) -> (r: Self)
        requires
            (obeys_laws::<T>() && context_new_req(border_gap_size, padding_gap_size, flex, size, min_size, max_size, unbounded))
                || ops_total::<T>(),
        ensures
            r.border_gap_size == border_gap_size,
            r.padding_gap_size == padding_gap_size,
            r.temp.row == row_direction(flex.flex_direction),
            r.temp.flex == flex,
            r.temp.abs_vec@.len() == 0,
            r.temp.rel_vec@.len() == 0,
            !r.temp.children_percent,
            r.vnode@.len() == 0,
            r.state@ == default_bits(),
            r.main == axes(row_direction(flex.flex_direction), size.width, size.height).0,
            r.cross == axes(row_direction(flex.flex_direction), size.width, size.height).1,
            obeys_laws::<T>() ==> ({
                let row = row_direction(flex.flex_direction);
                let gap = border_gap_size.add_spec(padding_gap_size);
                let (gap_main, gap_cross) = axes(row, gap.width, gap.height);
                let (main, cross) = axes(row, size.width, size.height);
                let (min_main, min_cross) = axes(row, min_size.width, min_size.height);
                let max_main = axes(row, max_size.width, max_size.height).0;
                &&& r.min_size.width == max_spec(gap.width, num_or(min_size.width, zero()))
                &&& r.min_size.height == max_spec(gap.height, num_or(min_size.height, zero()))
                &&& r.main_line == max_spec(zero(), line_length(flex.flex_wrap, main, max_main, unbounded).sub_spec(gap_main))
                &&& r.main_value == max_spec(zero(), num_or(main, num_or(min_main, zero())).sub_spec(gap_main))
                &&& r.cross_value == max_spec(zero(), num_or(cross, num_or(min_cross, zero())).sub_spec(gap_cross))
            }),
    {
        let zero = T::from(0u8);
        let row = flex.flex_direction.is_row();
        let gap_size = border_gap_size + padding_gap_size;
        let (main, cross, max_main, min_main, min_cross, gap) = if row {
            (size.width, size.height, max_size.width, min_size.width, min_size.height, gap_size)
        } else {
            (size.height, size.width, max_size.height, min_size.height, min_size.width, Size::new(gap_size.height, gap_size.width))
        };
        let m = if flex.flex_wrap == FlexWrap::NoWrap {
            unbounded
        } else {
            max_calc(main, max_main).or_else(unbounded)
        };
        CalcContext {
            border_gap_size,
            padding_gap_size,
            min_size: Size::new(
                max_value(gap_size.width, min_size.width.or_else(zero)),
                max_value(gap_size.height, min_size.height.or_else(zero)),
            ),
            main,
            cross,
            main_line: max_value(zero, m - gap.width),
            main_value: max_value(zero, main.or_else(min_main.or_else(zero)) - gap.width),
            cross_value: max_value(zero, cross.or_else(min_cross.or_else(zero)) - gap.height),
            state: NodeState::default(),
            temp: TempNode::new(flex, row),
            vnode: Vec::new(),
        }
    }
}

/// Word containers may be broken inside: the text wraps anywhere or breaks words.
pub open spec fn wraps_words(w: OverflowWrap) -> bool {
    w == OverflowWrap::Anywhere || w == OverflowWrap::BreakWord
}

/// The value of a length in points (zero for any other length).
pub open spec fn points_of<T: From<u8>>(d: Dimension<T>) -> T {
    match d {
        Dimension::Points(v) => v,
        _ => zero(),
    }
}

/// The item data of a character: its size on the container's axes, no grow
/// or shrink, no margins (their sum zero), no bounds, a dropped start margin
/// at a line start, and a forced break before a newline.
pub open spec fn char_info<K, T: Default + Add<Output = T> + From<u8>>(id: K, c: CharNode<T>, row: bool) -> RelNodeInfo<K, T> {
    let (m, cr) = axes(row, points_of(c.size.width), points_of(c.size.height));
    RelNodeInfo {
        id,
        cross: cr,
        margin_main: zero::<T>().add_spec(zero()),
        margin_main_start: Number::Undefined,
        margin_main_end: Number::Undefined,
        margin_cross_start: Number::Undefined,
        margin_cross_end: Number::Undefined,
        align_self: AlignSelf::Auto,
        main_d: Dimension::Points(m),
        cross_d: Dimension::Points(cr),
        line_start_margin_zero: true,
        breakline: c.ch == '\n',
        grow: zero(),
        shrink: zero(),
        main: m,
        min_main: Number::Undefined,
        max_main: Number::Undefined,
        main_result: zero(),
        main_result_maybe_ok: false,
    }
}

/// A word container's rectangle moved to the origin, keeping its size.
pub open spec fn at_origin<T: Default + Sub<Output = T> + From<u8>>(pos: Rect<T>) -> Rect<T> {
    Rect { left: zero(), right: pos.right.sub_spec(pos.left), top: zero(), bottom: pos.bottom.sub_spec(pos.top) }
}

/// The text, the line statistics and the cached children during text layout.
pub struct TextState<K, T: Default> {
    pub text: Seq<CharNode<T>>,
    pub line: LineView<T>,
    pub rel: Seq<(RelNodeInfo<K, T>, TempNodeType<K, T>)>,
}

/// Text layout from character `i` on: a word container that may be broken
/// is moved to the origin and its characters follow one by one; any other
/// character (or unbreakable word) adds its size to the line's main size,
/// is added to the line (see `line_add_spec`) and cached with its index,
/// and the layout moves past it (past all of a word's characters).
pub open spec fn text_layout_spec<K, T: Default + Add<Output = T> + Sub<Output = T> + PartialOrd + From<u8>>(id: K, row: bool, main_line: T, wrap: bool, tolerance: T, st: TextState<K, T>, i: int) -> TextState<K, T>
    decreases if i <= st.text.len() {
        st.text.len() - i
    } else {
        0
    },
{
    if i < 0 || i >= st.text.len() {
        st
    } else {
        let c = st.text[i];
        if c.ch == '\0' && wrap {
            text_layout_spec(id, row, main_line, wrap, tolerance,
                TextState { text: st.text.update(i, CharNode { pos: at_origin(c.pos), ..c }), ..st }, i + 1)
        } else {
            let info = char_info(id, c, row);
            let line = LineView { main: st.line.main.add_spec(info.main.add_spec(zero()).add_spec(zero())), ..st.line };
            let next = if c.ch == '\0' && c.count > 0 {
                i + c.count
            } else {
                i + 1
            };
            text_layout_spec(id, row, main_line, wrap, tolerance, TextState {
                line: line_add_spec(line, main_line, info, tolerance),
                rel: st.rel.push((info, TempNodeType::CharIndex(i as usize))),
                ..st
            }, next)
        }
    }
}

/// The operations of `text_layout_spec` from character `i` on are defined.
pub open spec fn text_layout_req<K, T: Default + Add<Output = T> + Sub<Output = T> + PartialOrd + From<u8>>(id: K, row: bool, main_line: T, wrap: bool, tolerance: T, st: TextState<K, T>, i: int) -> bool
    decreases if i <= st.text.len() {
        st.text.len() - i
    } else {
        0
    },
{
    if i < 0 || i >= st.text.len() {
        true
    } else {
        let c = st.text[i];
        if c.ch == '\0' && wrap {
            &&& c.pos.right.sub_req(c.pos.left) && c.pos.bottom.sub_req(c.pos.top)
            &&& text_layout_req(id, row, main_line, wrap, tolerance,
                TextState { text: st.text.update(i, CharNode { pos: at_origin(c.pos), ..c }), ..st }, i + 1)
        } else {
            let info = char_info(id, c, row);
            let m = info.main.add_spec(zero()).add_spec(zero());
            let line = LineView { main: st.line.main.add_spec(m), ..st.line };
            let next = if c.ch == '\0' && c.count > 0 {
                i + c.count
            } else {
                i + 1
            };
            &&& zero::<T>().add_req(zero()) && info.main.add_req(zero()) && info.main.add_spec(zero()).add_req(zero())
            &&& st.line.main.add_req(m)
            &&& line_add_req(line, main_line, info, tolerance)
            &&& text_layout_req(id, row, main_line, wrap, tolerance, TextState {
                line: line_add_spec(line, main_line, info, tolerance),
                rel: st.rel.push((info, TempNodeType::CharIndex(i as usize))),
                ..st
            }, next)
        }
    }
}

/// The characters that text layout reads from `i` on, in its order, can be
/// laid out: each has a size in points, and a word container that is not
/// broken spans at least itself, within the index range.
pub open spec fn text_ok<T: Default>(text: Seq<CharNode<T>>, wrap: bool, i: int) -> bool
    decreases if i <= text.len() {
        text.len() - i
    } else {
        0
    },
{
    if i < 0 || i >= text.len() {
        true
    } else {
        let c = text[i];
        if c.ch == '\0' && wrap {
            text_ok(text, wrap, i + 1)
        } else {
            &&& c.size.width is Points && c.size.height is Points
            &&& c.ch == '\0' ==> c.count > 0 && i + c.count <= usize::MAX
            &&& text_ok(text, wrap, if c.ch == '\0' && c.count > 0 {
                i + c.count
            } else {
                i + 1
            })
        }
    }
}

/// A word container (a `'\0'` character spanning the word's characters) is
/// broken up when the text may wrap anywhere or break words: with
/// `Anywhere`, exactly as with `BreakWord`, text layout moves the container
/// to the origin, keeping its size, adds no item for it and lays out the
/// characters after it one by one. With `Normal` the word stays whole: the
/// container is one item of the word's size, in place, and layout goes on
/// past the word's characters. Text layout with `Anywhere` and with
/// `BreakWord` gives the same result from any state.
pub proof fn lemma_word_breaking<K, T: Default + Add<Output = T> + Sub<Output = T> + PartialOrd + From<u8>>(
    id: K,
    row: bool,
    main_line: T,
    tolerance: T,
    st: TextState<K, T>,
    i: int,
)
    ensures
        text_layout_spec(id, row, main_line, wraps_words(OverflowWrap::Anywhere), tolerance, st, i)
            == text_layout_spec(id, row, main_line, wraps_words(OverflowWrap::BreakWord), tolerance, st, i),
        0 <= i < st.text.len() && st.text[i].ch == '\0' ==> {
            let c = st.text[i];
            let broken = TextState { text: st.text.update(i, CharNode { pos: at_origin(c.pos), ..c }), ..st };
            &&& text_layout_spec(id, row, main_line, wraps_words(OverflowWrap::Anywhere), tolerance, st, i)
                == text_layout_spec(id, row, main_line, wraps_words(OverflowWrap::Anywhere), tolerance, broken, i + 1)
            &&& text_layout_spec(id, row, main_line, wraps_words(OverflowWrap::BreakWord), tolerance, st, i)
                == text_layout_spec(id, row, main_line, wraps_words(OverflowWrap::BreakWord), tolerance, broken, i + 1)
        },
        0 <= i < st.text.len() && st.text[i].ch == '\0' && st.text[i].count > 0 ==> {
            let c = st.text[i];
            let info = char_info(id, c, row);
            let line = LineView { main: st.line.main.add_spec(info.main.add_spec(zero()).add_spec(zero())), ..st.line };
            let whole = TextState {
                line: line_add_spec(line, main_line, info, tolerance),
                rel: st.rel.push((info, TempNodeType::CharIndex(i as usize))),
                ..st
            };
            text_layout_spec(id, row, main_line, wraps_words(OverflowWrap::Normal), tolerance, st, i)
                == text_layout_spec(id, row, main_line, wraps_words(OverflowWrap::Normal), tolerance, whole, i + c.count)
        },
{
}

impl<K: Copy, T: Copy + Default + Add<Output = T> + Sub<Output = T> + Mul<Output = T> + Div<Output = T> + PartialEq + PartialOrd + From<u8>> CalcContext<K, T> {
    /// Lays out the characters of a text node as flex items of this container
    /// (see `text_layout_spec`); `tolerance` is how far a line may overflow
    /// before it breaks.
    pub fn text_layout(&mut self, id: K, text: &mut Vec<CharNode<T>>, line: &mut LineInfo<T>, overflow_wrap: OverflowWrap, tolerance: T)
        requires
            (obeys_laws::<T>() && text_layout_req(id, old(self).temp.row, old(self).main_line, wraps_words(overflow_wrap), tolerance,
                TextState { text: old(text)@, line: old(line)@, rel: old(self).temp.rel_vec@ }, 0))
                || ops_total::<T>(),
            old(line).item.count + old(text)@.len() < usize::MAX,
            old(line).item.margin_auto + 2 * old(text)@.len() + 2 <= usize::MAX,
            text_ok(old(text)@, wraps_words(overflow_wrap), 0),
        ensures
            final(text)@.len() == old(text)@.len(),
            *final(self) == (CalcContext { temp: TempNode { rel_vec: final(self).temp.rel_vec, ..old(self).temp }, ..*old(self) }),
            final(self).temp.rel_vec@.len() >= old(self).temp.rel_vec@.len(),
            final(self).temp.row == old(self).temp.row,
            final(self).main_line == old(self).main_line,
            obeys_laws::<T>() ==> (TextState { text: final(text)@, line: final(line)@, rel: final(self).temp.rel_vec@ })
                == text_layout_spec(id, old(self).temp.row, old(self).main_line, wraps_words(overflow_wrap), tolerance,
                    TextState { text: old(text)@, line: old(line)@, rel: old(self).temp.rel_vec@ }, 0),
    {
        let zero = T::from(0u8);
        let is_overflow_wrap = overflow_wrap == OverflowWrap::Anywhere || overflow_wrap == OverflowWrap::BreakWord;
        let ghost goal = text_layout_spec(id, self.temp.row, self.main_line, is_overflow_wrap, tolerance,
            TextState { text: text@, line: line@, rel: self.temp.rel_vec@ }, 0);
        let len = text.len();
        let mut char_index: usize = 0;
        while char_index < len
            invariant
                len == text@.len(),
                len == old(text)@.len(),
                (obeys_laws::<T>() && text_layout_req(id, old(self).temp.row, old(self).main_line, is_overflow_wrap, tolerance,
                    TextState { text: text@, line: line@, rel: self.temp.rel_vec@ }, char_index as int))
                    || ops_total::<T>(),
                is_overflow_wrap == wraps_words(overflow_wrap),
                self.temp.row == old(self).temp.row,
                self.main_line == old(self).main_line,
                *self == (CalcContext { temp: TempNode { rel_vec: self.temp.rel_vec, ..old(self).temp }, ..*old(self) }),
                self.temp.rel_vec@.len() >= old(self).temp.rel_vec@.len(),
                line.item.count <= old(line).item.count + char_index,
                line.item.margin_auto <= old(line).item.margin_auto + 2 * char_index,
                old(line).item.count + len < usize::MAX,
                old(line).item.margin_auto + 2 * len + 2 <= usize::MAX,
                forall|j: int| 0 <= j < len ==> (#[trigger] text@[j]).count == old(text)@[j].count,
                forall|j: int| 0 <= j < len ==> (#[trigger] text@[j]).ch == old(text)@[j].ch,
                forall|j: int| 0 <= j < len ==> (#[trigger] text@[j]).size == old(text)@[j].size,
                text_ok(old(text)@, is_overflow_wrap, char_index as int),
                obeys_laws::<T>() ==> zero == crate::calc::zero::<T>(),
                obeys_laws::<T>() ==> text_layout_spec(id, old(self).temp.row, old(self).main_line, is_overflow_wrap, tolerance,
                    TextState { text: text@, line: line@, rel: self.temp.rel_vec@ }, char_index as int) == goal,
            decreases if char_index <= len {
                len - char_index
            } else {
                0
            },
        {
            let c = text[char_index];
            if c.ch == '\0' && is_overflow_wrap {
                let mut c2 = c;
                c2.pos = Rect { left: zero, right: c.pos.right - c.pos.left, top: zero, bottom: c.pos.bottom - c.pos.top };
                text.set(char_index, c2);
                char_index = char_index + 1;
                continue;
            }
            let w = match c.size.width {
                Dimension::Points(r) => r,
                _ => {
                    proof {
                        assert(false);
                    }
                    zero
                },
            };
            let h = match c.size.height {
                Dimension::Points(r) => r,
                _ => {
                    proof {
                        assert(false);
                    }
                    zero
                },
            };
            let (main_d, cross_d) = self.temp.main_cross(w, h);
            let mut info = RelNodeInfo {
                id: id,
                grow: zero,
                shrink: zero,
                main: main_d,
                cross: cross_d,
                margin_main: zero,
                margin_main_start: Number::Undefined,
                margin_main_end: Number::Undefined,
                margin_cross_start: Number::Undefined,
                margin_cross_end: Number::Undefined,
                align_self: AlignSelf::Auto,
                main_d: Dimension::Points(main_d),
                cross_d: Dimension::Points(cross_d),
                line_start_margin_zero: true,
                breakline: c.ch == '\n',
                min_main: Number::Undefined,
                max_main: Number::Undefined,
                main_result: zero,
                main_result_maybe_ok: false,
            };
            let start = info.margin_main_start.or_else(zero);
            let end = info.margin_main_end.or_else(zero);
            let line_start = if line.item.count == 0 {
                zero
            } else {
                start
            };
            info.margin_main = start + end;
            line.main = line.main + (info.main + line_start + end);
            self.add_vec(line, 0, info, TempNodeType::CharIndex(char_index), tolerance);
            if c.ch == '\0' {
                char_index = char_index + c.count;
            } else {
                char_index = char_index + 1;
            }
        }
    }

    /// Adds an item to the line statistics (with the container's line length)
    /// and caches it in order.
    pub fn add_vec(&mut self, line: &mut LineInfo<T>, order: isize, info: RelNodeInfo<K, T>, temp: TempNodeType<K, T>, tolerance: T)
        requires
            (obeys_laws::<T>() && line_add_req(old(line)@, old(self).main_line, info, tolerance)) || ops_total::<T>(),
            old(line).item.count < usize::MAX,
            old(line).item.margin_auto + 2 <= usize::MAX,
        ensures
            final(self).temp.rel_vec@ == old(self).temp.rel_vec@.push((info, temp)),
            *final(self) == (CalcContext { temp: TempNode { rel_vec: final(self).temp.rel_vec, ..old(self).temp }, ..*old(self) }),
            final(self).temp.row == old(self).temp.row,
            final(self).main_line == old(self).main_line,
            final(line).main == old(line).main,
            final(line).item.count <= old(line).item.count + 1,
            final(line).item.margin_auto <= old(line).item.margin_auto + 2,
            obeys_laws::<T>() ==> final(line)@ == line_add_spec(old(line)@, old(self).main_line, info, tolerance),
    {
        line.add(self.main_line, &info, tolerance);
        self.temp.rel_vec.push((info, temp));
    }

    /// Adds an item to the line statistics and gives it back keyed for
    /// ordering by `order` and by `index`, its position among the ordered items.
    pub fn add_heap(&mut self, line: &mut LineInfo<T>, order: isize, index: usize, info: RelNodeInfo<K, T>, temp: TempNodeType<K, T>, tolerance: T) -> (r: OrderSort<K, T>)
        requires
            (obeys_laws::<T>() && line_add_req(old(line)@, old(self).main_line, info, tolerance)) || ops_total::<T>(),
            old(line).item.count < usize::MAX,
            old(line).item.margin_auto + 2 <= usize::MAX,
        ensures
            r == OrderSort(order, index, info, temp),
            *final(self) == *old(self),
            final(line).main == old(line).main,
            obeys_laws::<T>() ==> final(line)@ == line_add_spec(old(line)@, old(self).main_line, info, tolerance),
    {
        line.add(self.main_line, &info, tolerance);
        OrderSort(order, index, info, temp)
    }
}

} // verus!
