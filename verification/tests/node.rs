use std::borrow::BorrowMut;
use std::rc::Rc;

use ether::frame::TreeId;
use ether::node::{Node, AIT, MAX_PORTS};

#[test]
fn can_construct_a_single_node() {
    let node = Rc::new(Node::new(TreeId::new(12345), 5));
    assert_eq!(12345, node.get_id().get_id());
    assert_eq!(5, node.get_num_ports());
    assert!(node.get_port(MAX_PORTS).is_none());
    let mut port_id = 0;
    for port in node.get_port_iter() {
        assert_eq!(port_id, port.get_id());
        port_id += 1;
    }
    node.get_port_iter().enumerate().for_each(|(index, port)| {
        assert_eq!(index, port.get_id());
    })
}

#[test]
fn events_have_forward_and_reverse_directions() {
    let mut node = Node::new(TreeId::new(2112), 3);

    println!("before foo forward foo={}", node.is_foo());
    node.borrow_mut().event_forward_foo();
    println!("after foo forward foo={}", node.is_foo());
    assert_eq!(1, node.is_foo());

    println!("before foo reverse foo={}", node.is_foo());
    node.borrow_mut().event_reverse_foo();
    println!("after foo reverse foo={}", node.is_foo());
    assert_eq!(0, node.is_foo());

    println!("before foo event foo={}", node.is_foo());
    let x = AIT::new(&Rc::new(node));
    x.start();
    x.reverse();
    x.cancel();
    x.is_complete();
    x.is_failed();
    x.get_result();
}

#[test]
fn foo_wraps_around() {
    let mut node = Node::new(TreeId::new(1), 1);
    node.foo = isize::MAX;
    node.event_forward_foo();
    assert_eq!(isize::MIN, node.is_foo());
    node.event_reverse_foo();
    assert_eq!(isize::MAX, node.is_foo());
}

#[test]
fn port_iterator_yields_every_port_once() {
    let node = Node::new(TreeId::new(7), 4);
    let ids: Vec<usize> = node.get_port_iter().map(|port| port.get_id()).collect();
    assert_eq!(vec![0, 1, 2, 3], ids);
    assert_eq!(4, node.get_port_iter().len());
}

#[test]
fn ports_are_numbered_in_order() {
    let node = Node::new(TreeId::new(7), MAX_PORTS);
    assert_eq!(MAX_PORTS, node.get_num_ports());
    assert_eq!(Some(7), node.get_port(7).map(|port| port.get_id()));
    assert_eq!(Some(0), node.get_port(0).map(|port| port.get_id()));
    assert!(node.get_port(8).is_none());
}
