use ether::actor::{port_to_port_num, Cap};

#[test]
fn capability_equality_implies_actor_identity() {
    let a = Cap::new(123);
    let b = Cap::new(456);
    let c = a.clone();
    let d = b;
    assert_eq!(a, a);
    assert_ne!(a, b);
    assert_eq!(a, c);
    assert_ne!(c, d);
    assert_eq!(123, a.get_id());
    assert_eq!(Cap { id: 456 }, d);
}

#[test]
fn ports_are_found_by_their_capability() {
    let ports: Vec<Cap> = [7, 8, 9, 8].iter().map(|id| Cap::new(*id)).collect();
    assert_eq!(Some(0), port_to_port_num(&ports, &Cap::new(7)));
    assert_eq!(Some(1), port_to_port_num(&ports, &Cap::new(8)));
    assert_eq!(Some(2), port_to_port_num(&ports, &Cap::new(9)));
    assert_eq!(None, port_to_port_num(&ports, &Cap::new(10)));
    assert_eq!(None, port_to_port_num(&Vec::new(), &Cap::new(7)));
}
