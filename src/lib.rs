//! A packet-processing runtime: packet buffers and their header views, batch
//! operators, software transmit queues, multi-producer queues and a
//! cooperative per-core scheduler, with their behaviour stated as contracts.
pub mod bitfield;
pub mod check;
pub mod context;
pub mod errors;
pub mod flow;
pub mod headers;
pub mod mbuf;
pub mod mpsc;
pub mod operators;
pub mod packet_batch;
pub mod pdu;
pub mod port;
pub mod scheduler;
