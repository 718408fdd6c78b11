use pi_flex_layout::calc::INode;
use pi_flex_layout::geometry::{Rect, Size};
use pi_flex_layout::layout::{ComputeAction, Layout};
use pi_flex_layout::layout_context::child_summary;
use pi_flex_layout::layout_tree::Style;
use pi_flex_layout::node_state::{NodeState, ABS, CHILDREN_DIRTY, CHILDREN_INDEX, CHILDREN_RECT, SELF_DIRTY, SELF_RECT, SIZE_DEFINED, VNODE, CHILDREN_ABS, CHILDREN_NO_ALIGN_SELF};
use pi_flex_layout::node_tree::NodeTree;
use pi_flex_layout::style::{AlignSelf, Dimension, Display, PositionType};

const NULL: usize = usize::MAX;

fn flags(b: u32) -> NodeState {
    NodeState::from_bits_truncate(b)
}

/// root 0 -> 1 -> 2, and 3 under 0
fn chain_layout(states: [u32; 4]) -> Layout<f32> {
    let tree = NodeTree::new(vec![NULL, 0, 1, 0], vec![Some(1), Some(2), Some(3), Some(2)]).unwrap();
    let mut i_nodes = Vec::new();
    for s in states.iter() {
        let mut n: INode<f32> = INode::new(flags(*s), 0);
        n.state = flags(*s);
        i_nodes.push(n);
    }
    Layout { i_nodes, tree }
}

#[test]
fn tree_rejects_cycles_and_bad_links() {
    assert!(NodeTree::new(vec![1, 0], vec![Some(1), Some(1)]).is_none());
    assert!(NodeTree::new(vec![NULL, 5], vec![Some(1), Some(2)]).is_none());
    assert!(NodeTree::new(vec![NULL, 0], vec![Some(1)]).is_none());
    let t = NodeTree::new(vec![NULL, 0, 1], vec![Some(1), Some(2), None]).unwrap();
    assert_eq!(t.len(), 3);
    assert_eq!(t.get_parent(2), 1);
    assert_eq!(t.get_parent(0), NULL);
    assert_eq!(t.get_parent(7), NULL);
    assert_eq!(t.get_layer(1), Some(2));
    assert_eq!(t.get_layer(2), None);
    assert_eq!(t.get_layer(9), None);
    assert_eq!(t.layer(0), 1);
}

#[test]
fn mark_children_dirty_walks_up_to_a_fixed_absolute_node() {
    // node 0 is absolute with a defined size: the walk stops there
    let mut l = chain_layout([ABS | SIZE_DEFINED, 0, 0, 0]);
    let mut dirty = Vec::new();
    l.mark_children_dirty(&mut dirty, 2);
    assert_eq!(dirty, vec![(2, 3), (1, 2), (0, 1)]);
    for i in 0..3 {
        assert!(l.i_nodes[i].state.contains(flags(CHILDREN_DIRTY)));
    }
    assert!(!l.i_nodes[3].state.contains(flags(CHILDREN_DIRTY)));
    // a second marking changes nothing
    l.mark_children_dirty(&mut dirty, 2);
    assert_eq!(dirty.len(), 3);
}

#[test]
fn mark_children_dirty_stops_at_a_sized_or_absolute_node() {
    // a node with a defined size ends the walk, absolute or not
    let mut l = chain_layout([0, SIZE_DEFINED, 0, 0]);
    let mut dirty = Vec::new();
    l.mark_children_dirty(&mut dirty, 2);
    assert_eq!(dirty, vec![(2, 3), (1, 2)]);
    assert!(l.i_nodes[1].state.contains(flags(CHILDREN_DIRTY)));
    assert!(!l.i_nodes[0].state.contains(flags(CHILDREN_DIRTY)));
    // so does an absolutely positioned node of auto size
    let mut l = chain_layout([0, ABS, 0, 0]);
    let mut dirty = Vec::new();
    l.mark_children_dirty(&mut dirty, 2);
    assert_eq!(dirty, vec![(2, 3), (1, 2)]);
    assert!(!l.i_nodes[0].state.contains(flags(CHILDREN_DIRTY)));
}

#[test]
fn mark_children_dirty_stops_below_fixed_node_and_skips_queued() {
    // node 1 absolute with defined size stops the walk; node 2 already self-dirty
    let mut l = chain_layout([0, ABS | SIZE_DEFINED, SELF_DIRTY, 0]);
    let mut dirty = Vec::new();
    l.mark_children_dirty(&mut dirty, 2);
    assert_eq!(dirty, vec![(1, 2)]);
    assert!(l.i_nodes[2].state.contains(flags(CHILDREN_DIRTY)));
    assert!(l.i_nodes[1].state.contains(flags(CHILDREN_DIRTY)));
    assert!(!l.i_nodes[0].state.contains(flags(CHILDREN_DIRTY)));
}

#[test]
fn mark_children_dirty_passes_through_virtual_nodes() {
    let mut l = chain_layout([0, VNODE, 0, 0]);
    let mut dirty = Vec::new();
    l.mark_children_dirty(&mut dirty, 1);
    assert_eq!(dirty, vec![(0, 1)]);
    assert!(!l.i_nodes[1].state.contains(flags(CHILDREN_DIRTY)));
    assert!(l.i_nodes[0].state.contains(flags(CHILDREN_DIRTY)));
}

#[test]
fn mark_children_dirty_of_null_does_nothing() {
    let mut l = chain_layout([0, 0, 0, 0]);
    let mut dirty = Vec::new();
    l.mark_children_dirty(&mut dirty, NULL);
    assert!(dirty.is_empty());
}

#[test]
fn set_self_dirty_returns_parent_when_size_is_automatic() {
    let mut l = chain_layout([0, 0, 0, 0]);
    let mut dirty = Vec::new();
    let next = l.set_self_dirty(&mut dirty, 2, 1, 3);
    assert_eq!(next, 1);
    assert_eq!(dirty, vec![(2, 3)]);
    assert!(l.i_nodes[2].state.contains(flags(SELF_DIRTY)));
    // already self-dirty: nothing more
    let next = l.set_self_dirty(&mut dirty, 2, 1, 3);
    assert_eq!(next, NULL);
    assert_eq!(dirty.len(), 1);
}

#[test]
fn set_self_dirty_on_fixed_absolute_node_stops() {
    let mut l = chain_layout([0, 0, ABS | SIZE_DEFINED | CHILDREN_DIRTY, 0]);
    let mut dirty = Vec::new();
    let next = l.set_self_dirty(&mut dirty, 2, 1, 3);
    assert_eq!(next, NULL);
    // already queued as children-dirty
    assert!(dirty.is_empty());
    assert!(l.i_nodes[2].state.contains(flags(SELF_DIRTY)));
}

fn points_style() -> Style<f32> {
    Style {
        position_type: PositionType::Absolute,
        size: Size { width: Dimension::Points(10.0), height: Dimension::Points(20.0) },
        position: Rect {
            left: Dimension::Points(0.0),
            right: Dimension::Undefined,
            top: Dimension::Points(0.0),
            bottom: Dimension::Undefined,
        },
        margin: Rect {
            left: Dimension::Points(0.0),
            right: Dimension::Undefined,
            top: Dimension::Points(0.0),
            bottom: Dimension::Undefined,
        },
        ..Default::default()
    }
}

#[test]
fn set_rect_of_absolute_node_marks_only_itself() {
    let mut l = chain_layout([NodeState::default().bits(), NodeState::default().bits(), 0, 0]);
    let mut dirty = Vec::new();
    l.set_rect(&mut dirty, 1, true, true, &points_style());
    let s = l.i_nodes[1].state;
    assert!(s.contains(flags(ABS | SIZE_DEFINED | SELF_RECT | SELF_DIRTY)));
    assert_eq!(dirty, vec![(1, 2)]);
    // the parent's summary keeps "children absolute" and "children self-determined"
    assert!(l.i_nodes[0].state.contains(flags(CHILDREN_ABS | CHILDREN_RECT)));
    assert!(!l.i_nodes[0].state.contains(flags(CHILDREN_DIRTY)));
}

#[test]
fn set_rect_of_relative_node_marks_the_parent() {
    let mut l = chain_layout([NodeState::default().bits(), NodeState::default().bits(), 0, 0]);
    let mut dirty = Vec::new();
    let style = Style { order: 2, align_self: AlignSelf::Center, ..Default::default() };
    l.set_rect(&mut dirty, 1, true, true, &style);
    let s = l.i_nodes[1].state;
    assert!(!s.contains(flags(ABS)));
    assert!(!s.contains(flags(SIZE_DEFINED)));
    assert!(!s.contains(flags(SELF_RECT)));
    assert_eq!(dirty, vec![(1, 2), (0, 1)]);
    let p = l.i_nodes[0].state;
    assert!(p.contains(flags(CHILDREN_DIRTY)));
    assert!(!p.intersects(flags(CHILDREN_ABS | CHILDREN_RECT | CHILDREN_INDEX)));
}

#[test]
fn hidden_nodes_leave_styles_alone() {
    let mut l = chain_layout([0, 0, 0, 0]);
    let mut dirty = Vec::new();
    let hidden: Style<f32> = Style { display: Display::Hidden, ..Default::default() };
    l.set_rect(&mut dirty, 1, true, true, &hidden);
    l.set_self_style(1, &mut dirty, &hidden);
    l.set_children_style(&mut dirty, 1, &hidden);
    l.set_normal_style(&mut dirty, 1, &hidden);
    assert!(dirty.is_empty());
    // hiding a node below the top layer marks its parent's children dirty
    l.set_display(1, &mut dirty, &hidden);
    assert_eq!(dirty, vec![(0, 1)]);
}

#[test]
fn set_display_shows_node() {
    let mut l = chain_layout([NodeState::default().bits(), NodeState::default().bits(), 0, 0]);
    let mut dirty = Vec::new();
    l.set_display(1, &mut dirty, &points_style());
    assert!(l.i_nodes[1].state.contains(flags(ABS | SIZE_DEFINED | SELF_RECT | SELF_DIRTY)));
    // the parent learns from the flags from before: not absolute, not self-determined
    assert!(!l.i_nodes[0].state.intersects(flags(CHILDREN_ABS | CHILDREN_RECT)));
    assert_eq!(dirty, vec![(1, 2), (0, 1)]);
}

#[test]
fn set_self_and_children_style() {
    let mut l = chain_layout([0, 0, 0, 0]);
    let mut dirty = Vec::new();
    let style: Style<f32> = Style::default();
    l.set_self_style(2, &mut dirty, &style);
    assert_eq!(dirty, vec![(2, 3), (1, 2), (0, 1)]);
    let mut l = chain_layout([0, 0, 0, 0]);
    let mut dirty = Vec::new();
    l.set_children_style(&mut dirty, 3, &style);
    assert_eq!(dirty, vec![(3, 2), (0, 1)]);
    let mut l = chain_layout([0, 0, 0, 0]);
    let mut dirty = Vec::new();
    l.set_normal_style(&mut dirty, 3, &style);
    assert_eq!(dirty, vec![(0, 1)]);
}

#[test]
fn compute_step_picks_the_layout() {
    let mut l = chain_layout([SELF_DIRTY, VNODE, ABS | SELF_RECT | CHILDREN_DIRTY, ABS | SELF_DIRTY]);
    assert_eq!(l.compute_step(0), ComputeAction::Root);
    assert!(!l.i_nodes[0].state.intersects(flags(SELF_DIRTY | CHILDREN_DIRTY)));
    // node 2's parent is virtual: the container is node 0
    assert_eq!(l.compute_step(2), ComputeAction::AbsRect(0));
    assert_eq!(l.compute_step(3), ComputeAction::Abs(0));
    // clean now
    assert_eq!(l.compute_step(3), ComputeAction::Skip);
    let mut l = chain_layout([0, SELF_DIRTY, SELF_DIRTY | VNODE, 0]);
    assert_eq!(l.compute_step(1), ComputeAction::Rel(0));
    assert_eq!(l.compute_step(2), ComputeAction::Skip);
    assert!(!l.i_nodes[2].state.contains(flags(SELF_DIRTY)));
    assert_eq!(l.compute_step(9), ComputeAction::Skip);
}

#[test]
fn queue_then_compute_leaves_nothing_dirty() {
    let mut l = chain_layout([0, 0, 0, 0]);
    let mut dirty = Vec::new();
    let style: Style<f32> = Style::default();
    l.set_self_style(2, &mut dirty, &style);
    l.set_children_style(&mut dirty, 3, &style);
    for (id, _layer) in dirty.iter() {
        l.compute_step(*id);
    }
    for n in l.i_nodes.iter() {
        assert!(!n.state.intersects(flags(SELF_DIRTY | CHILDREN_DIRTY)));
    }
}

#[test]
fn gathered_children_update_the_summary() {
    let all = CHILDREN_ABS | CHILDREN_RECT | CHILDREN_INDEX | CHILDREN_NO_ALIGN_SELF;
    // an absolute child with a self-determined rectangle changes nothing
    let mut s = flags(all);
    child_summary(&mut s, flags(ABS | SELF_RECT), false, 3, AlignSelf::Center);
    assert_eq!(s.bits(), all);
    // any other absolute child clears CHILDREN_RECT only
    child_summary(&mut s, flags(ABS), false, 3, AlignSelf::Center);
    assert_eq!(s.bits(), CHILDREN_ABS | CHILDREN_INDEX | CHILDREN_NO_ALIGN_SELF);
    // a hidden child changes nothing
    let mut s = flags(all);
    child_summary(&mut s, flags(0), true, 3, AlignSelf::Center);
    assert_eq!(s.bits(), all);
    // a virtual child clears CHILDREN_ABS, not the order or alignment flags
    child_summary(&mut s, flags(VNODE | SELF_RECT), false, 3, AlignSelf::Center);
    assert_eq!(s.bits(), CHILDREN_RECT | CHILDREN_INDEX | CHILDREN_NO_ALIGN_SELF);
    // a real child with an order and an alignment clears them all
    child_summary(&mut s, flags(0), false, 3, AlignSelf::Center);
    assert_eq!(s.bits(), 0);
    // a plain real child with a fixed rectangle clears CHILDREN_ABS only
    let mut s = flags(all);
    child_summary(&mut s, flags(SELF_RECT), false, 0, AlignSelf::Auto);
    assert_eq!(s.bits(), CHILDREN_RECT | CHILDREN_INDEX | CHILDREN_NO_ALIGN_SELF);
}
