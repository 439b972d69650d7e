//! The messages exchanged with the kernel's routing socket.
pub mod addr;
pub mod cleanup;
pub mod codec;
pub mod dump_engine;
pub mod linux_types;
pub mod pbr;
pub mod raw_addr;
pub mod rule;
pub mod socket;
