# pi_flex_layout

A flex layout library whose logic is verified with Verus.

## Layout

- `src/` — the verified library.
  - `node_state` — node flags and the laws of setting and clearing them.
  - `node_tree` — the parent links and layers of the layout tree, checked acyclic.
  - `layout` — dirty marking and style changes over the tree, and the step that
    takes a node from the dirty queue; every operation keeps the queue
    consistent with the flags.
  - `number`, `geometry`, `style`, `layout_tree`, `traits` — value types, styles,
    layout results and the interfaces the layout reads and writes through.
  - `calc`, `line`, `order`, `layout_context` — the placement arithmetic of flex
    items, line statistics, text layout, item ordering and layout decisions,
    over any scalar type.
  - `grow_shrink` — distribution of a container's size over its items by their
    grow and shrink factors under their bounds.
  - `null` — the null node index.
  - `px` — a signed scalar of whole pixels with exact arithmetic.
- `app/` — the recursive layout engine over `f32`, the slot-map layout tree and
  serializable forms of the value types, around the library.
- `tests/` — tests of the library on concrete values.

Arithmetic contracts are stated over a generic scalar `T`. A function that
computes is called either where `T`'s operations are defined on every operand
(as they are on floats), or where they follow vstd's specifications and are
defined on the operands that the function meets, which its requirements name
(a `..._req` predicate). Its results are stated exactly where `T`'s equality,
order, arithmetic and conversion from `u8` all follow vstd's specifications.
`grow_shrink` states its bounds law twice: for any scalar with a total order,
the distributions that consult the bounds keep every item within them on the
side they check (`lemma_calculate_within_bounds`); for `u64` sizes counted
from an empty context, every item ends within its minimum and maximum and the
recorded amount is the sum of the sizes (`lemma_calculate_within_bounds_u64`).
For `u64` sizes it also states how the sum of the sizes compares with the
bases, bounds and container size (`lemma_grow_totals_u64`,
`lemma_shrink_totals_u64`, `lemma_total_range_u64`). Shrinking needs
negative free space, which `px::Px`, a signed length in whole pixels whose
arithmetic and order follow their specifications, can hold: for `Px` sizes
the shrink law (`lemma_shrink_fills_container_px`) states that every item
ends within its bounds and the sizes fill the container, and
`lemma_shrink_totals_px` states how the sum of the sizes compares with the
bases, minima and container size when items shrink.
With `Px` the placement contracts in `calc` are exact for negative results
too: a centred item larger than its line overhangs both of its ends
(`calc::lemma_center_overhangs_px`).
