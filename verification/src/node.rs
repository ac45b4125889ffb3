//! A multi-port node as a plain record: the tree it is the root of, and its
//! numbered ports.
use crate::frame::{Payload, TreeId};
use std::rc::Rc;
use std::slice::Iter;
use vstd::prelude::*;

verus! {

/// The most ports that a node can have.
pub const MAX_PORTS: usize = 8;

/// A point-to-point connection of a node.
#[derive(Debug, PartialEq, Eq)]
pub struct Port {
    pub id: usize,
    pub token_in: Option<Payload>,
    pub token_out: Option<Payload>,
}

impl Port {
    /// Port number `id`, with no token either way.
    pub fn new(id: usize) -> (port: Port)
        ensures
            port == (Port { id, token_in: None, token_out: None }),
    {
        Port { id, token_in: None, token_out: None }
    }

    pub fn get_id(&self) -> (id: usize)
        ensures
            id == self.id,
    {
        self.id
    }
}

/// A node: the root of the tree `id`, with its ports in the order of their
/// numbers.
#[derive(Debug, PartialEq, Eq)]
pub struct Node {
    pub id: TreeId,
    pub ports: Vec<Port>,
    pub foo: isize,
}

impl Node {
    /// The invariant: between one and `MAX_PORTS` ports, and port `k` has
    /// the number `k`.
    pub open spec fn wf(&self) -> bool {
        &&& 0 < self.ports@.len() <= MAX_PORTS
        &&& forall|k: int|
            0 <= k < self.ports@.len() ==> #[trigger] self.ports@[k] == (Port {
                id: k as usize,
                token_in: None,
                token_out: None,
            })
    }

    /// A node with `num_ports` ports.
    pub fn new(id: TreeId, num_ports: usize) -> (node: Node)
        requires
            0 < num_ports <= MAX_PORTS,
        ensures
            node.wf(),
            node.id == id,
            node.ports@.len() == num_ports,
            node.foo == 0,
    {
        let mut ports: Vec<Port> = Vec::with_capacity(num_ports);
        let mut i: usize = 0;
        while i < num_ports
            invariant
                i <= num_ports,
                ports@.len() == i,
                forall|k: int|
                    0 <= k < i ==> #[trigger] ports@[k] == (Port {
                        id: k as usize,
                        token_in: None,
                        token_out: None,
                    }),
            decreases num_ports - i,
        {
            ports.push(Port::new(i));
            i += 1;
        }
        Node { id, ports, foo: 0 }
    }

    pub fn get_id(&self) -> (id: TreeId)
        ensures
            id == self.id,
    {
        TreeId::new(self.id.get_id())
    }

    pub fn get_num_ports(&self) -> (n: usize)
        ensures
            n == self.ports@.len(),
    {
        self.ports.len()
    }

    /// An iterator over the ports in the order of their numbers.
    pub fn get_port_iter(&self) -> (iter: Iter<'_, Port>)
        ensures
            vstd::std_specs::slice::into_iter_elts(iter) == self.ports@,
    {
        let iter = self.ports.iter();
        proof {
            let rest = vstd::std_specs::iter::IteratorSpec::remaining(&iter);
            assert(rest == self.ports@.as_ref());
            assert(rest.unref() =~= self.ports@);
        }
        iter
    }

    /// The port with number `id`, if the node has one.
    pub fn get_port(&self, id: usize) -> (port: Option<&Port>)
        ensures
            port == if id < self.ports@.len() {
                Some(&self.ports@[id as int])
            } else {
                None
            },
    {
        if id < self.ports.len() {
            Some(&self.ports[id])
        } else {
            None
        }
    }

    pub fn is_foo(&self) -> (foo: isize)
        ensures
            foo == self.foo,
    {
        self.foo
    }

    /// The forward direction of an event: `foo` goes up by one, and wraps
    /// around at the largest number.
    pub fn event_forward_foo(&mut self)
        ensures
            final(self).id == old(self).id,
            final(self).ports == old(self).ports,
            final(self).foo == if old(self).foo == isize::MAX {
                isize::MIN
            } else {
                (old(self).foo + 1) as isize
            },
    {
        self.foo = if self.foo == isize::MAX {
            isize::MIN
        } else {
            self.foo + 1
        };
    }

    /// The reverse direction of an event: `foo` goes down by one, and wraps
    /// around at the smallest number.
    pub fn event_reverse_foo(&mut self)
        ensures
            final(self).id == old(self).id,
            final(self).ports == old(self).ports,
            final(self).foo == if old(self).foo == isize::MIN {
                isize::MAX
            } else {
                (old(self).foo - 1) as isize
            },
    {
        self.foo = if self.foo == isize::MIN {
            isize::MAX
        } else {
            self.foo - 1
        };
    }
}

/// One atomic information transfer at a node.
pub struct AIT {
    pub node: Rc<Node>,
}

impl AIT {
    pub fn new(node: &Rc<Node>) -> (ait: AIT)
        ensures
            ait.node == *node,
    {
        AIT { node: Rc::clone(node) }
    }

    pub fn start(&self) {
    }

    pub fn reverse(&self) {
    }

    pub fn cancel(&self) {
    }

    pub fn is_complete(&self) {
    }

    pub fn is_failed(&self) {
    }

    pub fn get_result(&self) {
    }
}

} // verus!
