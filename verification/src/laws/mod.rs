//! What the parts of the daemon promise, stated on what goes in and what comes out.
pub mod addresses;
pub mod batches;
pub mod commands;
pub mod faults;
pub mod files;
pub mod journal;
pub mod leftovers;
pub mod packets;
pub mod policy;
pub mod rounds;
pub mod settings;
pub mod startup;
pub mod texts;
pub mod upkeep;
pub mod wire;
