use solanum::node::ImmutableNode;
use std::rc::Rc;

#[allow(dead_code)]
struct Point {
    x: u32,
    y: u32,
}

#[test]
fn unidirectional_initialize_tail_node() {
    let node = ImmutableNode::new(1);
    assert_eq!(node.value, 1);
    assert!(node.next.is_none());
}

#[test]
fn unidirectional_initialize_node_with_next_reference() {
    let tail_node = Rc::new(ImmutableNode::new(1));
    let node = ImmutableNode::new_with_next(2, Rc::clone(&tail_node));
    assert_eq!(node.value, 2);
    assert!(node.next.is_some());
    assert_eq!(node.next.as_ref().unwrap().value, 1);
    assert_eq!(node.next.unwrap(), tail_node);
}

#[test]
fn unidirectional_primitive_node() {
    let integer_node = ImmutableNode::new(1);
    assert_eq!(integer_node.value, 1);

    let float_node = ImmutableNode::new(0.1);
    assert_eq!(float_node.value, 0.1);

    let boolean_node = ImmutableNode::new(true);
    assert!(boolean_node.value);

    let str_node = ImmutableNode::new("hello");
    assert_eq!(str_node.value, "hello");
}

#[test]
fn unidirectional_complex_node() {
    let _point_node = ImmutableNode::new(Point { x: 1, y: 2 });
}

#[test]
fn unidirectional_reference_count_in_node_next() {
    let node_1 = Rc::new(ImmutableNode::new(1));
    let node_2 = Rc::new(ImmutableNode::new_with_next(2, Rc::clone(&node_1)));

    assert_eq!(Rc::strong_count(&node_1), 2);
    assert_eq!(Rc::strong_count(&node_2), 1);
}

#[test]
fn unidirectional_reference_count_is_reduced_after_unlink() {
    let node_1 = Rc::new(ImmutableNode::new(1));
    assert_eq!(Rc::strong_count(&node_1), 1);

    {
        let _node_2 = Rc::new(ImmutableNode::new_with_next(2, Rc::clone(&node_1)));
        assert_eq!(Rc::strong_count(&node_1), 2);
    }

    assert_eq!(Rc::strong_count(&node_1), 1);
}

#[test]
fn new_with_next_shares_the_next_node() {
    let tail_node = Rc::new(ImmutableNode::new(1));
    let first = ImmutableNode::new_with_next(2, Rc::clone(&tail_node));
    let second = ImmutableNode::new_with_next(3, Rc::clone(&tail_node));
    assert!(Rc::ptr_eq(first.next.as_ref().unwrap(), &tail_node));
    assert!(Rc::ptr_eq(second.next.as_ref().unwrap(), &tail_node));
    assert_eq!(Rc::strong_count(&tail_node), 3);
}

#[test]
fn nodes_compare_by_structure() {
    let a = ImmutableNode::new_with_next(2, Rc::new(ImmutableNode::new(1)));
    let b = ImmutableNode::new_with_next(2, Rc::new(ImmutableNode::new(1)));
    let c = ImmutableNode::new_with_next(2, Rc::new(ImmutableNode::new(5)));
    assert_eq!(a, b);
    assert_ne!(a, c);
}
