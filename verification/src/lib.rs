//! Flex layout: node flags, dirty propagation over the layout tree, the
//! placement arithmetic of flex items, line statistics, text layout, the
//! distribution of free space by grow and shrink factors, ordering of flex
//! items and the geometry and style value types.

pub mod node_state;
pub mod null;
pub mod node_tree;
pub mod number;
pub mod px;
pub mod geometry;
pub mod style;
pub mod calc;
pub mod layout_tree;
pub mod layout;
pub mod order;
pub mod layout_context;
pub mod line;
pub mod grow_shrink;
pub mod traits;
