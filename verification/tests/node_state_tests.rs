use pi_flex_layout::node_state::{NodeState, ABS, CHILDREN_ABS, CHILDREN_DIRTY, CHILDREN_INDEX, CHILDREN_NO_ALIGN_SELF, CHILDREN_RECT, SELF_DIRTY, VNODE, ALL_FLAGS};

#[test]
fn default_flags() {
    let s = NodeState::default();
    assert_eq!(s.bits(), CHILDREN_ABS | CHILDREN_RECT | CHILDREN_NO_ALIGN_SELF | CHILDREN_INDEX);
    assert!(s.contains(NodeState::from_bits_truncate(CHILDREN_INDEX)));
    assert!(!s.contains(NodeState::from_bits_truncate(CHILDREN_DIRTY)));
}

#[test]
fn truncate_drops_unknown_bits() {
    let s = NodeState::from_bits_truncate(0xFFFF_FFFF);
    assert_eq!(s.bits(), ALL_FLAGS);
    assert_eq!(NodeState::all().bits(), 0b1_1111_1111_1111);
    assert_eq!(NodeState::empty().bits(), 0);
}

#[test]
fn set_true_then_false_restores() {
    let mut s = NodeState::from_bits_truncate(ABS);
    let before = s;
    s.set_true(NodeState::from_bits_truncate(SELF_DIRTY | VNODE));
    assert!(s.contains(NodeState::from_bits_truncate(SELF_DIRTY)));
    assert!(s.contains(NodeState::from_bits_truncate(VNODE)));
    assert_eq!(s.bits(), ABS | SELF_DIRTY | VNODE);
    s.set_false(NodeState::from_bits_truncate(SELF_DIRTY | VNODE));
    assert_eq!(s, before);
    assert!(!s.intersects(NodeState::from_bits_truncate(SELF_DIRTY | VNODE)));
}

#[test]
fn union_and_complement() {
    let a = NodeState::from_bits_truncate(ABS);
    let b = NodeState::from_bits_truncate(VNODE);
    assert_eq!(a.union(b).bits(), ABS | VNODE);
    assert_eq!(a.union(b).intersection(b).bits(), VNODE);
    assert_eq!(a.union(b).difference(a).bits(), VNODE);
    assert_eq!(a.complement().bits(), ALL_FLAGS & !ABS);
}
