use vstd::prelude::*;

verus! {

/// The children's layout must be recomputed.
pub const CHILDREN_DIRTY: u32 = 0b0000000000000001;
/// The node's own layout must be recomputed.
pub const SELF_DIRTY: u32 = 0b0000000000000010;
/// Every child is absolutely positioned, so the automatic size is zero.
pub const CHILDREN_ABS: u32 = 0b0000000000000100;
/// No child sets `align_self`.
pub const CHILDREN_NO_ALIGN_SELF: u32 = 0b0000000000001000;
/// The children are laid out in index order (no child sets `order`).
pub const CHILDREN_INDEX: u32 = 0b0000000000010000;
/// A virtual node: its children take part in the layout of its parent.
pub const VNODE: u32 = 0b0000000000100000;
/// Absolutely positioned.
pub const ABS: u32 = 0b0000000001000000;
/// Width and height are both defined.
pub const SIZE_DEFINED: u32 = 0b0000000010000000;
/// When the node starts a line, its leading margin is zero.
pub const LINE_START_MARGIN_ZERO: u32 = 0b0000000100000000;
/// Forces a line break before the node.
pub const BREAK_LINE: u32 = 0b0000001000000000;
/// A real node (usually backing a component node).
pub const RNODE: u32 = 0b0000010000000000;
/// Every child has a self-determined rectangle.
pub const CHILDREN_RECT: u32 = 0b0000100000000000;
/// The node's rectangle depends neither on its parent nor on its children.
pub const SELF_RECT: u32 = 0b0001000000000000;
/// All known flags.
pub const ALL_FLAGS: u32 = 0b0001111111111111;

/// The flags of a layout node.
#[derive(Clone, Copy, Debug, PartialEq, Eq, PartialOrd, Hash)]
pub struct NodeState {
    bits: u32,
}

/// The flags a node starts with: its children are taken to be absolute,
/// self-determined, without `align_self` and in index order until one shows otherwise.
pub open spec fn default_bits() -> u32 {
    CHILDREN_ABS | CHILDREN_RECT | CHILDREN_NO_ALIGN_SELF | CHILDREN_INDEX
}

/// `bits` holds every bit of `flags`.
pub open spec fn has_flags(bits: u32, flags: u32) -> bool {
    bits & flags == flags
}

/// Facts about the bit operations that the flag operations use.
pub proof fn lemma_flag_bits(a: u32, b: u32)
    by (bit_vector)
    ensures
        (a & ALL_FLAGS) & ALL_FLAGS == a & ALL_FLAGS,
        a & ALL_FLAGS == a && b & ALL_FLAGS == b ==> (a | b) & ALL_FLAGS == (a | b),
        a & ALL_FLAGS == a ==> (a & b) & ALL_FLAGS == (a & b),
        a & ALL_FLAGS == a ==> (a & !b) & ALL_FLAGS == (a & !b),
        (!a & ALL_FLAGS) & ALL_FLAGS == (!a & ALL_FLAGS),
        0u32 & ALL_FLAGS == 0u32,
        ALL_FLAGS & ALL_FLAGS == ALL_FLAGS,
        default_bits() & ALL_FLAGS == default_bits(),
{
}

/// Every named flag is a known flag.
pub proof fn lemma_flags_known()
    by (bit_vector)
    ensures
        CHILDREN_DIRTY & ALL_FLAGS == CHILDREN_DIRTY,
        SELF_DIRTY & ALL_FLAGS == SELF_DIRTY,
        CHILDREN_ABS & ALL_FLAGS == CHILDREN_ABS,
        CHILDREN_NO_ALIGN_SELF & ALL_FLAGS == CHILDREN_NO_ALIGN_SELF,
        CHILDREN_INDEX & ALL_FLAGS == CHILDREN_INDEX,
        VNODE & ALL_FLAGS == VNODE,
        ABS & ALL_FLAGS == ABS,
        SIZE_DEFINED & ALL_FLAGS == SIZE_DEFINED,
        LINE_START_MARGIN_ZERO & ALL_FLAGS == LINE_START_MARGIN_ZERO,
        BREAK_LINE & ALL_FLAGS == BREAK_LINE,
        RNODE & ALL_FLAGS == RNODE,
        CHILDREN_RECT & ALL_FLAGS == CHILDREN_RECT,
        SELF_RECT & ALL_FLAGS == SELF_RECT,
        (CHILDREN_DIRTY | SELF_DIRTY) & ALL_FLAGS == (CHILDREN_DIRTY | SELF_DIRTY),
{
}

/// Setting a dirty flag, or clearing both, leaves every other flag as it was.
pub proof fn lemma_dirty_bits(x: u32)
    by (bit_vector)
    ensures
        has_flags(x | CHILDREN_DIRTY, CHILDREN_DIRTY),
        has_flags(x | SELF_DIRTY, SELF_DIRTY),
        has_flags(x | CHILDREN_DIRTY, SELF_DIRTY) == has_flags(x, SELF_DIRTY),
        has_flags(x | SELF_DIRTY, CHILDREN_DIRTY) == has_flags(x, CHILDREN_DIRTY),
        has_flags(x | CHILDREN_DIRTY, VNODE) == has_flags(x, VNODE),
        has_flags(x | SELF_DIRTY, VNODE) == has_flags(x, VNODE),
        has_flags(x | CHILDREN_DIRTY, SIZE_DEFINED) == has_flags(x, SIZE_DEFINED),
        has_flags(x | SELF_DIRTY, SIZE_DEFINED) == has_flags(x, SIZE_DEFINED),
        has_flags(x | CHILDREN_DIRTY, ABS) == has_flags(x, ABS),
        has_flags(x | SELF_DIRTY, ABS) == has_flags(x, ABS),
        has_flags(x | CHILDREN_DIRTY, SELF_RECT) == has_flags(x, SELF_RECT),
        has_flags(x | SELF_DIRTY, SELF_RECT) == has_flags(x, SELF_RECT),
        !has_flags(x & !(CHILDREN_DIRTY | SELF_DIRTY), CHILDREN_DIRTY),
        !has_flags(x & !(CHILDREN_DIRTY | SELF_DIRTY), SELF_DIRTY),
        has_flags(x & !(CHILDREN_DIRTY | SELF_DIRTY), VNODE) == has_flags(x, VNODE),
        has_flags(x & !(CHILDREN_DIRTY | SELF_DIRTY), ABS) == has_flags(x, ABS),
        has_flags(x & !(CHILDREN_DIRTY | SELF_DIRTY), SELF_RECT) == has_flags(x, SELF_RECT),
        has_flags(x & !(CHILDREN_DIRTY | SELF_DIRTY), SIZE_DEFINED) == has_flags(x, SIZE_DEFINED),
{
}

/// Clearing a `CHILDREN_*` summary flag, or setting or clearing one of the
/// node's own `ABS`, `SIZE_DEFINED` or `SELF_RECT` flags, leaves the dirty and
/// virtual-node flags as they were.
pub proof fn lemma_summary_bits(x: u32)
    by (bit_vector)
    ensures
        has_flags(x & !CHILDREN_ABS, CHILDREN_DIRTY) == has_flags(x, CHILDREN_DIRTY),
        has_flags(x & !CHILDREN_ABS, SELF_DIRTY) == has_flags(x, SELF_DIRTY),
        has_flags(x & !CHILDREN_ABS, VNODE) == has_flags(x, VNODE),
        has_flags(x & !CHILDREN_RECT, CHILDREN_DIRTY) == has_flags(x, CHILDREN_DIRTY),
        has_flags(x & !CHILDREN_RECT, SELF_DIRTY) == has_flags(x, SELF_DIRTY),
        has_flags(x & !CHILDREN_RECT, VNODE) == has_flags(x, VNODE),
        has_flags(x & !CHILDREN_NO_ALIGN_SELF, CHILDREN_DIRTY) == has_flags(x, CHILDREN_DIRTY),
        has_flags(x & !CHILDREN_NO_ALIGN_SELF, SELF_DIRTY) == has_flags(x, SELF_DIRTY),
        has_flags(x & !CHILDREN_NO_ALIGN_SELF, VNODE) == has_flags(x, VNODE),
        has_flags(x & !CHILDREN_INDEX, CHILDREN_DIRTY) == has_flags(x, CHILDREN_DIRTY),
        has_flags(x & !CHILDREN_INDEX, SELF_DIRTY) == has_flags(x, SELF_DIRTY),
        has_flags(x & !CHILDREN_INDEX, VNODE) == has_flags(x, VNODE),
        has_flags(x | ABS, CHILDREN_DIRTY) == has_flags(x, CHILDREN_DIRTY),
        has_flags(x | ABS, SELF_DIRTY) == has_flags(x, SELF_DIRTY),
        has_flags(x | ABS, VNODE) == has_flags(x, VNODE),
        has_flags(x & !ABS, CHILDREN_DIRTY) == has_flags(x, CHILDREN_DIRTY),
        has_flags(x & !ABS, SELF_DIRTY) == has_flags(x, SELF_DIRTY),
        has_flags(x & !ABS, VNODE) == has_flags(x, VNODE),
        has_flags(x | SIZE_DEFINED, CHILDREN_DIRTY) == has_flags(x, CHILDREN_DIRTY),
        has_flags(x | SIZE_DEFINED, SELF_DIRTY) == has_flags(x, SELF_DIRTY),
        has_flags(x | SIZE_DEFINED, VNODE) == has_flags(x, VNODE),
        has_flags(x & !SIZE_DEFINED, CHILDREN_DIRTY) == has_flags(x, CHILDREN_DIRTY),
        has_flags(x & !SIZE_DEFINED, SELF_DIRTY) == has_flags(x, SELF_DIRTY),
        has_flags(x & !SIZE_DEFINED, VNODE) == has_flags(x, VNODE),
        has_flags(x | SELF_RECT, CHILDREN_DIRTY) == has_flags(x, CHILDREN_DIRTY),
        has_flags(x | SELF_RECT, SELF_DIRTY) == has_flags(x, SELF_DIRTY),
        has_flags(x | SELF_RECT, VNODE) == has_flags(x, VNODE),
        has_flags(x & !SELF_RECT, CHILDREN_DIRTY) == has_flags(x, CHILDREN_DIRTY),
        has_flags(x & !SELF_RECT, SELF_DIRTY) == has_flags(x, SELF_DIRTY),
        has_flags(x & !SELF_RECT, VNODE) == has_flags(x, VNODE),
{
}

/// Setting flags makes the state contain them; clearing flags leaves none of
/// them; clearing flags that were just set on a state without them restores it.
pub proof fn lemma_set_clear(x: u32, f: u32)
    by (bit_vector)
    ensures
        has_flags(x | f, f),
        (x & !f) & f == 0,
        x & f == 0 ==> (x | f) & !f == x,
        (x | f) | f == x | f,
        (x & !f) & !f == x & !f,
{
}

impl View for NodeState {
    type V = u32;

    closed spec fn view(&self) -> u32 {
        self.bits
    }
}

impl NodeState {
    /// No unknown bit is ever set.
    #[verifier::type_invariant]
    closed spec fn known_bits_only(self) -> bool {
        self.bits & ALL_FLAGS == self.bits
    }

    /// The state with exactly the known bits of `bits`.
    pub fn from_bits_truncate(bits: u32) -> (r: Self)
        ensures
            r@ == bits & ALL_FLAGS,
            bits & ALL_FLAGS == bits ==> r@ == bits,
    {
        let b = bits & ALL_FLAGS;
        proof {
            lemma_flag_bits(bits, 0);
        }
        NodeState { bits: b }
    }

    /// The raw bits.
    pub fn bits(&self) -> (r: u32)
        ensures
            r == self@,
    {
        self.bits
    }

    /// No flag set.
    pub fn empty() -> (r: Self)
        ensures
            r@ == 0,
    {
        proof {
            lemma_flag_bits(0, 0);
        }
        NodeState { bits: 0 }
    }

    /// Every known flag set.
    pub fn all() -> (r: Self)
        ensures
            r@ == ALL_FLAGS,
    {
        proof {
            lemma_flag_bits(0, 0);
        }
        NodeState { bits: ALL_FLAGS }
    }

    /// Every flag of `other` is set in `self`.
    pub fn contains(&self, other: Self) -> (r: bool)
        ensures
            r == has_flags(self@, other@),
    {
        self.bits & other.bits == other.bits
    }

    /// Some flag of `other` is set in `self`.
    pub fn intersects(&self, other: Self) -> (r: bool)
        ensures
            r == (self@ & other@ != 0),
    {
        self.bits & other.bits != 0
    }

    /// The flags of either.
    pub fn union(self, other: Self) -> (r: Self)
        ensures
            r@ == self@ | other@,
    {
        proof {
            use_type_invariant(&self);
            use_type_invariant(&other);
        }
        let a = self.bits;
        let b = other.bits;
        proof {
            lemma_flag_bits(a, b);
        }
        NodeState { bits: a | b }
    }

    /// The flags of both.
    pub fn intersection(self, other: Self) -> (r: Self)
        ensures
            r@ == self@ & other@,
    {
        proof {
            use_type_invariant(&self);
        }
        let a = self.bits;
        let b = other.bits;
        proof {
            lemma_flag_bits(a, b);
        }
        NodeState { bits: a & b }
    }

    /// The flags of `self` that `other` does not hold.
    pub fn difference(self, other: Self) -> (r: Self)
        ensures
            r@ == self@ & !other@,
    {
        proof {
            use_type_invariant(&self);
        }
        let a = self.bits;
        let b = other.bits;
        proof {
            lemma_flag_bits(a, b);
        }
        NodeState { bits: a & !b }
    }

    /// The known flags that `self` does not hold.
    pub fn complement(self) -> (r: Self)
        ensures
            r@ == !self@ & ALL_FLAGS,
    {
        let a = self.bits;
        proof {
            lemma_flag_bits(a, 0);
        }
        NodeState { bits: !a & ALL_FLAGS }
    }

    /// Sets every flag of `s`.
    pub fn set_true(&mut self, s: Self)
        ensures
            final(self)@ == old(self)@ | s@,
    {
        *self = self.union(s);
    }

    /// Clears every flag of `s`.
    pub fn set_false(&mut self, s: Self)
        ensures
            final(self)@ == old(self)@ & !s@,
    {
        *self = self.difference(s);
    }

    /// Sets the flags of `s` when `value` holds, clears them otherwise.
    pub fn set(&mut self, s: Self, value: bool)
        ensures
            value ==> final(self)@ == old(self)@ | s@,
            !value ==> final(self)@ == old(self)@ & !s@,
    {
        if value {
            self.set_true(s);
        } else {
            self.set_false(s);
        }
    }
}

impl Default for NodeState {
    fn default() -> (r: Self)
        ensures
            r@ == default_bits(),
    {
        let bits = CHILDREN_ABS | CHILDREN_RECT | CHILDREN_NO_ALIGN_SELF | CHILDREN_INDEX;
        proof {
            lemma_flag_bits(0, 0);
        }
        NodeState::from_bits_truncate(bits)
    }
}

} // verus!
