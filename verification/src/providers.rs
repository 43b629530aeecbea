pub mod queue;
pub mod queue_proofs;
pub mod mail_queue;
pub mod memory;
pub mod bus_proofs;
