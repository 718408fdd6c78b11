use core::convert::From;
use core::ops::{Add, Div, Mul, Sub};
use vstd::prelude::*;
use vstd::std_specs::cmp::{PartialOrdIs, PartialOrdSpec};
use vstd::std_specs::ops::{AddSpec, SubSpec};
use crate::calc::{RelNodeInfo, obeys_laws, ops_total, zero};
use crate::number::Number;
use crate::px::Px;

verus! {

/// The running totals of one line of flex items.
#[derive(Default, Clone, PartialEq, PartialOrd, Debug)]
pub struct LineItem<T> {
    /// Number of items.
    pub count: usize,
    /// Sum of the items' grow factors.
    pub grow: T,
    /// Sum of the items' shrink weights.
    pub shrink: T,
    /// Number of `auto` main-axis margins.
    pub margin_auto: usize,
    /// Sum of the items' main sizes and defined main margins.
    pub main: T,
    /// Largest cross size of an item with its defined cross margins.
    pub cross: T,
}

/// The cross extent of an item: its cross size plus its defined cross margins.
pub open spec fn item_cross<K, T: Add<Output = T>>(info: RelNodeInfo<K, T>) -> T {
    let c1 = match info.margin_cross_start {
        Number::Defined(r) => info.cross.add_spec(r),
        Number::Undefined => info.cross,
    };
    match info.margin_cross_end {
        Number::Defined(r) => c1.add_spec(r),
        Number::Undefined => c1,
    }
}

/// The main size after the item and its end margin.
pub open spec fn main_after_end<K, T: Add<Output = T>>(main: T, info: RelNodeInfo<K, T>) -> T {
    match info.margin_main_end {
        Number::Defined(r) => main.add_spec(info.main).add_spec(r),
        Number::Undefined => main.add_spec(info.main),
    }
}

/// The start margin is counted: the item does not start a line that drops it.
pub open spec fn counts_start_margin<K, T>(info: RelNodeInfo<K, T>, line_start: bool) -> bool {
    !(line_start && info.line_start_margin_zero)
}

/// The line totals after adding an item: one more item, its grow factor and
/// shrink weight added, its main size and every defined main margin added, one
/// `auto` margin counted for each undefined one (the start margin is neither
/// added nor counted when the item starts the line and drops it), and the
/// cross extent raised to the item's.
pub open spec fn merge_spec<K, T: Add<Output = T> + PartialOrd>(item: LineItem<T>, info: RelNodeInfo<K, T>, line_start: bool) -> LineItem<T> {
    let main2 = main_after_end(item.main, info);
    let auto1: int = if info.margin_main_end is Defined {
        item.margin_auto as int
    } else {
        item.margin_auto + 1
    };
    let c = item_cross(info);
    let (main3, auto2) = if !counts_start_margin(info, line_start) {
        (main2, auto1)
    } else {
        match info.margin_main_start {
            Number::Defined(r) => (main2.add_spec(r), auto1),
            Number::Undefined => (main2, auto1 + 1),
        }
    };
    LineItem {
        count: (item.count + 1) as usize,
        grow: item.grow.add_spec(info.grow),
        shrink: item.shrink.add_spec(info.shrink),
        margin_auto: auto2 as usize,
        main: main3,
        cross: if item.cross.is_lt(&c) {
            c
        } else {
            item.cross
        },
    }
}

/// The additions of `merge_spec` are defined.
pub open spec fn merge_req<K, T: Add<Output = T>>(item: LineItem<T>, info: RelNodeInfo<K, T>, line_start: bool) -> bool {
    let m1 = item.main.add_spec(info.main);
    let c1 = match info.margin_cross_start {
        Number::Defined(r) => info.cross.add_spec(r),
        Number::Undefined => info.cross,
    };
    &&& item.grow.add_req(info.grow)
    &&& item.shrink.add_req(info.shrink)
    &&& item.main.add_req(info.main)
    &&& (info.margin_main_end matches Number::Defined(r) ==> m1.add_req(r))
    &&& (info.margin_cross_start matches Number::Defined(r) ==> info.cross.add_req(r))
    &&& (info.margin_cross_end matches Number::Defined(r) ==> c1.add_req(r))
    &&& (counts_start_margin(info, line_start) ==> (info.margin_main_start matches Number::Defined(r)
        ==> main_after_end(item.main, info).add_req(r)))
}

impl<T: Copy + Add<Output = T> + Sub<Output = T> + Mul<Output = T> + Div<Output = T> + PartialOrd> LineItem<T> {
    /// Adds an item to the line's totals (see `merge_spec`).
    pub fn merge<K>(&mut self, info: &RelNodeInfo<K, T>, line_start: bool)
        requires
            (T::obeys_add_spec() && merge_req(*old(self), *info, line_start)) || ops_total::<T>(),
            old(self).count < usize::MAX,
            old(self).margin_auto + 2 <= usize::MAX,
        ensures
            final(self).count == old(self).count + 1,
            final(self).margin_auto == merge_spec(*old(self), *info, line_start).margin_auto,
            T::obeys_add_spec() ==> final(self).grow == merge_spec(*old(self), *info, line_start).grow,
            T::obeys_add_spec() ==> final(self).shrink == merge_spec(*old(self), *info, line_start).shrink,
            T::obeys_add_spec() ==> final(self).main == merge_spec(*old(self), *info, line_start).main,
            T::obeys_add_spec() && T::obeys_partial_cmp_spec() ==> *final(self) == merge_spec(*old(self), *info, line_start),
    {
        self.count = self.count + 1;
        self.grow = self.grow + info.grow;
        self.shrink = self.shrink + info.shrink;
        self.main = self.main + info.main;
        let mut cross = info.cross;
        if let Number::Defined(r) = info.margin_main_end {
            self.main = self.main + r;
        } else {
            self.margin_auto = self.margin_auto + 1;
        }
        if let Number::Defined(r) = info.margin_cross_start {
            cross = cross + r;
        }
        if let Number::Defined(r) = info.margin_cross_end {
            cross = cross + r;
        }
        if self.cross < cross {
            self.cross = cross;
        }
        if line_start && info.line_start_margin_zero {
            return;
        }
        if let Number::Defined(r) = info.margin_main_start {
            self.main = self.main + r;
        } else {
            self.margin_auto = self.margin_auto + 1;
        }
    }
}

/// The line statistics of a container's items: the total main size, the
/// summed cross sizes of the finished lines, the current line and the
/// finished ones.
#[derive(Default, Clone, PartialEq, PartialOrd, Debug)]
pub struct LineInfo<T> {
    /// Sum of the items' main sizes with their margins.
    pub main: T,
    /// Sum of the cross sizes of the finished lines.
    pub cross: T,
    /// The line being filled.
    pub item: LineItem<T>,
    /// The finished lines.
    pub items: Vec<LineItem<T>>,
}

/// The line statistics as values: the finished lines as a sequence.
pub struct LineView<T> {
    pub main: T,
    pub cross: T,
    pub item: LineItem<T>,
    pub items: Seq<LineItem<T>>,
}

impl<T> View for LineInfo<T> {
    type V = LineView<T>;

    open spec fn view(&self) -> LineView<T> {
        LineView { main: self.main, cross: self.cross, item: self.item, items: self.items@ }
    }
}

/// A line with no item, its totals zero.
pub open spec fn empty_item<T: From<u8>>() -> LineItem<T> {
    LineItem { count: 0, grow: zero(), shrink: zero(), margin_auto: 0, main: zero(), cross: zero() }
}

/// The item starts a new line: the current line is not empty and the item
/// would overflow `main` by more than `tolerance`, or a break is forced
/// before it.
pub open spec fn breaks_line<K, T: Add<Output = T> + Sub<Output = T> + PartialOrd>(line: LineView<T>, main: T, info: RelNodeInfo<K, T>, tolerance: T) -> bool {
    (line.item.count > 0 && line.item.main.add_spec(info.main).add_spec(info.margin_main).is_gt(&main.add_spec(tolerance)))
        || info.breakline
}

/// The operations of `line_add_spec` are defined.
pub open spec fn line_add_req<K, T: Add<Output = T> + Sub<Output = T> + PartialOrd + From<u8>>(line: LineView<T>, main: T, info: RelNodeInfo<K, T>, tolerance: T) -> bool {
    let a = line.item.main.add_spec(info.main);
    &&& (line.item.count > 0 ==> line.item.main.add_req(info.main) && a.add_req(info.margin_main)
        && main.add_req(tolerance))
    &&& (breaks_line(line, main, info, tolerance) ==> line.cross.add_req(line.item.cross)
        && merge_req(empty_item(), info, true))
    &&& (!breaks_line(line, main, info, tolerance) ==> merge_req(line.item, info, line.item.count == 0))
}

/// The statistics after adding an item: when it breaks the line the current
/// line is finished and its cross size added, and the item starts a new
/// line; otherwise it joins the current line.
pub open spec fn line_add_spec<K, T: Add<Output = T> + Sub<Output = T> + PartialOrd + From<u8>>(line: LineView<T>, main: T, info: RelNodeInfo<K, T>, tolerance: T) -> LineView<T> {
    if breaks_line(line, main, info, tolerance) {
        LineView {
            main: line.main,
            cross: line.cross.add_spec(line.item.cross),
            item: merge_spec(empty_item(), info, true),
            items: line.items.push(line.item),
        }
    } else {
        LineView { item: merge_spec(line.item, info, line.item.count == 0), ..line }
    }
}

/// The statistics after adding the items of `infos` in order.
pub open spec fn line_fold<K, T: Add<Output = T> + Sub<Output = T> + PartialOrd + From<u8>>(line: LineView<T>, main: T, infos: Seq<RelNodeInfo<K, T>>, tolerance: T) -> LineView<T>
    decreases infos.len(),
{
    if infos.len() == 0 {
        line
    } else {
        line_add_spec(line_fold(line, main, infos.drop_last(), tolerance), main, infos.last(), tolerance)
    }
}

/// The operations of `line_fold` are defined at every item.
pub open spec fn line_fold_req<K, T: Add<Output = T> + Sub<Output = T> + PartialOrd + From<u8>>(line: LineView<T>, main: T, infos: Seq<RelNodeInfo<K, T>>, tolerance: T) -> bool
    decreases infos.len(),
{
    infos.len() == 0 || (line_fold_req(line, main, infos.drop_last(), tolerance)
        && line_add_req(line_fold(line, main, infos.drop_last(), tolerance), main, infos.last(), tolerance))
}

/// Where the operations are defined on the items, they are on each prefix.
pub(crate) proof fn lemma_line_fold_req_prefix<K, T: Add<Output = T> + Sub<Output = T> + PartialOrd + From<u8>>(line: LineView<T>, main: T, infos: Seq<RelNodeInfo<K, T>>, tolerance: T, k: int)
    requires
        line_fold_req(line, main, infos, tolerance),
        0 <= k <= infos.len(),
    ensures
        line_fold_req(line, main, infos.subrange(0, k), tolerance),
    decreases infos.len(),
{
    if k < infos.len() {
        assert(infos.drop_last().subrange(0, k) =~= infos.subrange(0, k));
        lemma_line_fold_req_prefix(line, main, infos.drop_last(), tolerance, k);
    } else {
        assert(infos.subrange(0, k) =~= infos);
    }
}

/// Statistics with no item, all totals zero.
pub open spec fn empty_line<T: From<u8>>() -> LineView<T> {
    LineView { main: zero(), cross: zero(), item: empty_item(), items: Seq::empty() }
}

impl<T: Copy + Add<Output = T> + Sub<Output = T> + Mul<Output = T> + Div<Output = T> + PartialEq + PartialOrd + From<u8>> LineInfo<T> {
    /// Adds an item (see `line_add_spec`).
    pub fn add<K>(&mut self, main: T, info: &RelNodeInfo<K, T>, tolerance: T)
        requires
            (obeys_laws::<T>() && line_add_req(old(self)@, main, *info, tolerance)) || ops_total::<T>(),
            old(self).item.count < usize::MAX,
            old(self).item.margin_auto + 2 <= usize::MAX,
        ensures
            final(self).main == old(self).main,
            final(self).item.count <= old(self).item.count + 1,
            final(self).item.margin_auto <= old(self).item.margin_auto + 2,
            final(self).items@ == old(self).items@ || final(self).items@ == old(self).items@.push(old(self).item),
            obeys_laws::<T>() ==> final(self)@ == line_add_spec(old(self)@, main, *info, tolerance),
    {
        let zero = T::from(0u8);
        let overflows = self.item.count > 0 && self.item.main + info.main + info.margin_main > main + tolerance;
        if overflows || info.breakline {
            self.cross = self.cross + self.item.cross;
            let mut t = LineItem { count: 0, grow: zero, shrink: zero, margin_auto: 0, main: zero, cross: zero };
            core::mem::swap(&mut self.item, &mut t);
            self.items.push(t);
            self.item.merge(info, true);
        } else {
            let first = self.item.count == 0;
            self.item.merge(info, first);
        }
    }
}

/// Adding an item to a line, with `Px` lengths: the line counts one more
/// item and its grow factor and shrink weight; its main size grows by the
/// item's main size, its defined end margin and (unless the item starts the
/// line and drops it) its defined start margin; and its cross size becomes
/// the larger of what it was and the item's cross size with both of its
/// defined cross margins.
pub proof fn lemma_merge_totals_px<K>(item: LineItem<Px>, info: RelNodeInfo<K, Px>, line_start: bool)
    requires
        merge_req(item, info, line_start),
        item.count < usize::MAX,
        item.margin_auto + 2 <= usize::MAX,
    ensures
        ({
            let r = merge_spec(item, info, line_start);
            let msc: int = match info.margin_cross_start {
                Number::Defined(v) => v.0 as int,
                Number::Undefined => 0,
            };
            let mec: int = match info.margin_cross_end {
                Number::Defined(v) => v.0 as int,
                Number::Undefined => 0,
            };
            let mme: int = match info.margin_main_end {
                Number::Defined(v) => v.0 as int,
                Number::Undefined => 0,
            };
            let drops_start = line_start && info.line_start_margin_zero;
            let mms: int = match info.margin_main_start {
                Number::Defined(v) => if drops_start { 0 } else { v.0 as int },
                Number::Undefined => 0,
            };
            let extent = info.cross.0 + msc + mec;
            &&& r.count == item.count + 1
            &&& r.grow.0 == item.grow.0 + info.grow.0
            &&& r.shrink.0 == item.shrink.0 + info.shrink.0
            &&& r.main.0 == item.main.0 + info.main.0 + mme + mms
            &&& r.cross.0 >= item.cross.0 && r.cross.0 >= extent
            &&& (r.cross.0 == item.cross.0 || r.cross.0 == extent)
        }),
{
}

/// Adding an item to the line statistics, with `Px` lengths: the item
/// starts a new line exactly when a break is forced before it, or the
/// current line already holds an item and the item with its main margins
/// would overflow the line's main size by more than `tolerance`. Then the
/// current line is finished (kept in order after the earlier lines, its
/// cross size added to the total) and the item alone makes the new current
/// line; otherwise it joins the current line, and the finished lines and
/// their cross total stay as they were.
pub proof fn lemma_line_add_px<K>(line: LineView<Px>, main: Px, info: RelNodeInfo<K, Px>, tolerance: Px)
    requires
        line_add_req(line, main, info, tolerance),
        line.item.count < usize::MAX,
        line.item.margin_auto + 2 <= usize::MAX,
    ensures
        ({
            let r = line_add_spec(line, main, info, tolerance);
            let brk = info.breakline || (line.item.count > 0 && line.item.main.0 + info.main.0 + info.margin_main.0
                > main.0 + tolerance.0);
            &&& r.main == line.main
            &&& brk ==> r.items == line.items.push(line.item) && r.cross.0 == line.cross.0 + line.item.cross.0
                && r.item.count == 1
            &&& !brk ==> r.items == line.items && r.cross == line.cross && r.item.count == line.item.count + 1
        }),
{
}

} // verus!
