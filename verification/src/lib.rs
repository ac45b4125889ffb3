//! Atomic information transfer over a directly connected Ethernet link.
//!
//! Every component (wire, link, port, pollster, hub, cell) is a state
//! machine: it takes one event at a time, changes only its own state, and
//! answers with the messages it addresses to other components. Whoever runs
//! the components delivers those messages, each sender's in the order given.
pub mod actor;
pub mod cell;
pub mod channel;
pub mod circuit;
pub mod duplex;
pub mod fault;
pub mod frame;
pub mod hub;
pub mod link;
pub mod live;
pub mod node;
pub mod pollster;
pub mod port;
pub mod reactor;
pub mod rendezvous;
pub mod util;
pub mod wire;
