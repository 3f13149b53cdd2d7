//! Building blocks of a local inter-process communication layer: the contract of a buffer
//! for ancillary socket data, and the pool that keeps unfinished sends of dropped
//! connections alive.

pub mod cmsg_mut;
pub mod limbo_pool;
