//! Numbers of the Linux user-space interface that the daemon speaks with.
//!
//! The constants are the same on every processor architecture. Numbers that differ between
//! architectures are handed in as `ArchNumbers`.
use vstd::prelude::*;

verus! {

/// The numbers that differ between processor architectures.
#[derive(Debug, Clone, Copy, PartialEq, Eq, Structural)]
pub struct ArchNumbers {
    pub enosys: i32,
    pub eopnotsupp: i32,
    pub eprotonosupport: i32,
    pub sigusr1: u32,
}

pub const AF_INET: i32 = 2;
pub const AF_INET6: i32 = 10;

pub const ENOENT: i32 = 2;
pub const ESRCH: i32 = 3;
pub const EINTR: i32 = 4;
pub const EAGAIN: i32 = 11;
pub const EEXIST: i32 = 17;

pub const NLMSG_ERROR: u16 = 2;
pub const NLMSG_DONE: u16 = 3;

pub const NLM_F_REQUEST: u16 = 0x1;
pub const NLM_F_ACK: u16 = 0x4;
pub const NLM_F_REPLACE: u16 = 0x100;
pub const NLM_F_EXCL: u16 = 0x200;
pub const NLM_F_CREATE: u16 = 0x400;
pub const NLM_F_DUMP: u16 = 0x300;

pub const RTM_NEWADDR: u16 = 20;
pub const RTM_DELADDR: u16 = 21;
pub const RTM_GETADDR: u16 = 22;
pub const RTM_NEWROUTE: u16 = 24;
pub const RTM_DELROUTE: u16 = 25;
pub const RTM_NEWRULE: u16 = 32;
pub const RTM_DELRULE: u16 = 33;
pub const RTM_GETRULE: u16 = 34;

pub const IFA_ADDRESS: u16 = 1;
pub const IFA_LOCAL: u16 = 2;

pub const RTPROT_BOOT: u8 = 3;
pub const RT_SCOPE_UNIVERSE: u8 = 0;
pub const RT_SCOPE_HOST: u8 = 254;
pub const RTN_UNICAST: u8 = 1;
pub const RTN_LOCAL: u8 = 2;

} // verus!
