//! Receive buffers, and what the results of socket calls mean.
use crate::bytes::ByteOrder;
use crate::error::{error_of_io, AppError, IoError};
use crate::netlink::codec::{
    item_view, items, Item, NetlinkMessageIter, NetlinkMessageView, ROUTE_EVENT_BUFFER_SIZE,
};
use crate::netlink::linux_types::{RTNLGRP_IPV4_IFADDR, RTNLGRP_IPV6_IFADDR};
use crate::sys::{EAGAIN, EINTR};
use vstd::prelude::*;
use vstd::slice::slice_subrange;

verus! {

pub const MMSG_SLOTS: usize = 8;

pub const SOL_NETLINK: i32 = 270;
pub const NETLINK_EXT_ACK: i32 = 11;

/// The larger of a number and one.
pub open spec fn at_least_one(n: usize) -> usize {
    if n == 0 {
        1
    } else {
        n
    }
}

/// A row of equal slots, each of which receives one packet.
pub struct MmsgRxRing {
    /// The slots, one after the other.
    pub slab: Vec<u8>,
    /// The size of a slot.
    pub buf_size: usize,
    /// The length of the packet in each slot.
    pub lengths: Vec<usize>,
}

impl View for MmsgRxRing {
    type V = Seq<Seq<u8>>;

    /// The packets, slot by slot.
    open spec fn view(&self) -> Seq<Seq<u8>> {
        Seq::new(self.lengths@.len(), |i: int| self.slot(i))
    }
}

/// Slots before a given one end where it starts, and it ends within all of them.
proof fn lemma_slot_bounds(i: int, slots: int, size: int)
    by (nonlinear_arith)
    requires
        0 <= i < slots,
        1 <= size,
    ensures
        0 <= i * size,
        i * size + size <= slots * size,
{
}

/// Fewer slots take no more room.
proof fn lemma_slots_monotone(a: int, b: int, size: int)
    by (nonlinear_arith)
    requires
        0 <= a <= b,
        1 <= size,
    ensures
        0 <= a * size <= b * size,
{
}

impl MmsgRxRing {
    /// The packet in a slot.
    pub open spec fn slot(&self, i: int) -> Seq<u8> {
        self.slab@.subrange(i * self.buf_size, i * self.buf_size + self.lengths@[i])
    }

    /// There is at least one slot, the slots fill the slab, and every packet fits its slot.
    pub open spec fn wf(&self) -> bool {
        &&& 1 <= self.lengths@.len()
        &&& 1 <= self.buf_size
        &&& self.slab@.len() == self.lengths@.len() * self.buf_size
        &&& forall|i: int| 0 <= i < self.lengths@.len() ==> self.lengths@[i] <= self.buf_size
    }

    /// A ring of empty slots, at least one, of at least one byte.
    pub fn new(slots: usize, buf_size: usize) -> (r: Self)
        requires
            at_least_one(slots) * at_least_one(buf_size) <= usize::MAX,
        ensures
            r.wf(),
            r.lengths@.len() == at_least_one(slots),
            r.buf_size == at_least_one(buf_size),
            forall|i: int| 0 <= i < r@.len() ==> r@[i] == Seq::<u8>::empty(),
    {
        let slots: usize = if slots == 0 {
            1
        } else {
            slots
        };
        let buf_size: usize = if buf_size == 0 {
            1
        } else {
            buf_size
        };
        let mut slab: Vec<u8> = Vec::new();
        slab.resize(slots * buf_size, 0);
        let mut lengths: Vec<usize> = Vec::new();
        lengths.resize(slots, 0);
        let ring = MmsgRxRing { slab, buf_size, lengths };
        assert forall|i: int| 0 <= i < ring@.len() implies ring@[i] == Seq::<u8>::empty() by {
            lemma_slot_bounds(i, slots as int, buf_size as int);
            assert(ring@[i] =~= Seq::<u8>::empty());
        }
        ring
    }

    /// The ring that route events are received into.
    pub fn default_route_ring() -> (r: Self)
        ensures
            r.wf(),
            r.lengths@.len() == MMSG_SLOTS,
            r.buf_size == ROUTE_EVENT_BUFFER_SIZE,
            forall|i: int| 0 <= i < r@.len() ==> r@[i] == Seq::<u8>::empty(),
    {
        Self::new(MMSG_SLOTS, ROUTE_EVENT_BUFFER_SIZE)
    }

    /// The packet in a slot.
    pub fn packet(&self, idx: usize) -> (r: &[u8])
        requires
            self.wf(),
            idx < self@.len(),
        ensures
            r@ == self@[idx as int],
    {
        proof {
            lemma_slot_bounds(idx as int, self.lengths@.len() as int, self.buf_size as int);
        }
        let bound: usize = self.slab.len();
        assert(idx * self.buf_size + self.lengths@[idx as int] <= bound);
        let len: usize = self.lengths[idx];
        let start: usize = idx * self.buf_size;
        slice_subrange(self.slab.as_slice(), start, start + len)
    }

    /// The number of slots.
    pub fn slots(&self) -> (r: usize)
        ensures
            r == self@.len(),
    {
        self.lengths.len()
    }

    /// Grows the ring to at least that many slots.
    pub fn ensure_slots(&mut self, slots: usize)
        requires
            old(self).wf(),
            slots * old(self).buf_size <= usize::MAX,
        ensures
            final(self).wf(),
            final(self).buf_size == old(self).buf_size,
            slots <= old(self)@.len() ==> final(self)@ == old(self)@,
            slots > old(self)@.len() ==> final(self)@ == resized(old(self)@, slots as nat),
    {
        if slots <= self.lengths.len() {
            return;
        }
        self.resize_slots(slots);
    }

    /// Shrinks the ring to at most that many slots, but not below one.
    pub fn shrink_slots(&mut self, slots: usize)
        requires
            old(self).wf(),
        ensures
            final(self).wf(),
            final(self).buf_size == old(self).buf_size,
            slots >= old(self)@.len() ==> final(self)@ == old(self)@,
            slots < old(self)@.len() ==> final(self)@ == resized(
                old(self)@,
                at_least_one(slots) as nat,
            ),
    {
        if slots >= self.lengths.len() {
            return;
        }
        let target: usize = if slots == 0 {
            1
        } else {
            slots
        };
        proof {
            lemma_slots_monotone(target as int, self.lengths@.len() as int, self.buf_size as int);
            let n = self.slab.len();
            assert(target * self.buf_size <= n);
        }
        self.resize_slots(target);
    }

    /// Gives the ring that many slots. Packets in slots that stay are kept.
    fn resize_slots(&mut self, slots: usize)
        requires
            old(self).wf(),
            1 <= slots,
            slots * old(self).buf_size <= usize::MAX,
        ensures
            final(self).wf(),
            final(self).buf_size == old(self).buf_size,
            final(self)@ == resized(old(self)@, slots as nat),
    {
        let size: usize = self.buf_size;
        let have: usize = self.lengths.len();
        self.slab.resize(slots * size, 0);
        self.lengths.resize(slots, 0);
        proof {
            let target = resized(old(self)@, slots as nat);
            assert forall|i: int| 0 <= i < slots implies self@[i] == target[i] by {
                lemma_slot_bounds(i, slots as int, size as int);
                if i < have {
                    lemma_slot_bounds(i, have as int, size as int);
                    assert(self.slot(i) =~= old(self).slot(i));
                } else {
                    assert(self.slot(i) =~= Seq::<u8>::empty());
                }
            }
            assert(self@ =~= target);
            assert forall|i: int| 0 <= i < slots implies self.lengths@[i] <= size by {
                if i < have {
                    assert(self.lengths@[i] == old(self).lengths@[i]);
                }
            }
        }
    }

    /// Empties every slot.
    pub fn clear_lengths(&mut self)
        requires
            old(self).wf(),
        ensures
            final(self).wf(),
            final(self).buf_size == old(self).buf_size,
            final(self).slab@ == old(self).slab@,
            final(self)@.len() == old(self)@.len(),
            forall|i: int| 0 <= i < final(self)@.len() ==> final(self)@[i] == Seq::<u8>::empty(),
    {
        let n: usize = self.lengths.len();
        for i in 0..n
            invariant
                self.lengths@.len() == n,
                self.buf_size == old(self).buf_size,
                self.slab@ == old(self).slab@,
                forall|j: int| 0 <= j < i ==> self.lengths@[j] == 0,
        {
            self.lengths[i] = 0;
        }
        assert forall|i: int| 0 <= i < self@.len() implies self@[i] == Seq::<u8>::empty() by {
            lemma_slot_bounds(i, n as int, self.buf_size as int);
            assert(self.slot(i) =~= Seq::<u8>::empty());
        }
    }

    /// Takes over how many bytes the kernel put into each of the first slots. A count beyond the
    /// slot's size is cut to it.
    pub fn update_lengths(&mut self, received: &[u32])
        requires
            old(self).wf(),
        ensures
            final(self).wf(),
            final(self).buf_size == old(self).buf_size,
            final(self).slab@ == old(self).slab@,
            final(self).lengths@.len() == old(self).lengths@.len(),
            forall|i: int|
                0 <= i < final(self).lengths@.len() ==> #[trigger] final(self).lengths@[i] == if i
                    < received@.len() {
                    if received@[i] > old(self).buf_size {
                        old(self).buf_size as int
                    } else {
                        received@[i] as int
                    }
                } else {
                    old(self).lengths@[i] as int
                },
    {
        let n: usize = self.lengths.len();
        let count: usize = if received.len() < n {
            received.len()
        } else {
            n
        };
        let size: usize = self.buf_size;
        for i in 0..count
            invariant
                size == self.buf_size,
                self.buf_size == old(self).buf_size,
                self.slab@ == old(self).slab@,
                self.lengths@.len() == n,
                n == old(self).lengths@.len(),
                count <= n,
                count <= received@.len(),
                forall|j: int| i <= j < n ==> self.lengths@[j] == old(self).lengths@[j],
                forall|j: int|
                    0 <= j < i ==> #[trigger] self.lengths@[j] == if received@[j] > size {
                        size as int
                    } else {
                        received@[j] as int
                    },
        {
            let got: u32 = received[i];
            self.lengths[i] = if got as u64 > size as u64 {
                size
            } else {
                got as usize
            };
        }
    }
}

/// The first packets of a ring, with empty slots after them, in `slots` slots.
pub open spec fn resized(packets: Seq<Seq<u8>>, slots: nat) -> Seq<Seq<u8>> {
    Seq::new(
        slots,
        |i: int|
            if i < packets.len() {
                packets[i]
            } else {
                Seq::empty()
            },
    )
}

// ---------------------------------------------------------------------------
// Reading what was received
// ---------------------------------------------------------------------------

/// Everything that the packets hold, in order.
pub open spec fn packet_items(order: ByteOrder, packets: Seq<Seq<u8>>) -> Seq<Item>
    decreases packets.len(),
{
    if packets.len() == 0 {
        Seq::empty()
    } else {
        packet_items(order, packets.drop_last()) + items(order, packets.last())
    }
}

/// What the results of reading stand for.
pub open spec fn item_views(s: Seq<Result<NetlinkMessageView<'_>, AppError>>) -> Seq<Item> {
    Seq::new(s.len(), |i: int| item_view(s[i]))
}

/// Reads the messages of the first `count` packets.
pub fn collect_messages<'a>(order: ByteOrder, ring: &'a MmsgRxRing, count: usize) -> (r: Vec<
    Result<NetlinkMessageView<'a>, AppError>,
>)
    requires
        ring.wf(),
        count <= ring@.len(),
    ensures
        item_views(r@) == packet_items(order, ring@.subrange(0, count as int)),
{
    let mut out: Vec<Result<NetlinkMessageView<'a>, AppError>> = Vec::new();
    assert(item_views(out@) =~= Seq::<Item>::empty());
    assert(ring@.subrange(0, 0) =~= Seq::<Seq<u8>>::empty());
    for idx in 0..count
        invariant
            ring.wf(),
            count <= ring@.len(),
            item_views(out@) == packet_items(order, ring@.subrange(0, idx as int)),
    {
        let ghost before = item_views(out@);
        let mut it = NetlinkMessageIter::new(order, ring.packet(idx));
        let ghost all = it@;
        assert(before + all =~= item_views(out@) + it@);
        loop
            invariant_except_break
                before + all == item_views(out@) + it@,
            ensures
                before + all == item_views(out@),
            decreases it.raw@.len(),
        {
            let ghost had = item_views(out@);
            let ghost left = it@;
            match it.next() {
                None => {
                    assert(had + left =~= had);
                    break ;
                },
                Some(item) => {
                    out.push(item);
                    assert(item_views(out@) =~= had + seq![item_view(item)]);
                    assert(had + (seq![item_view(item)] + it@) =~= item_views(out@) + it@);
                },
            }
        }
        proof {
            let upto = ring@.subrange(0, idx + 1);
            assert(upto.drop_last() =~= ring@.subrange(0, idx as int));
            assert(upto.last() == ring@[idx as int]);
        }
    }
    out
}

// ---------------------------------------------------------------------------
// Results of socket calls
// ---------------------------------------------------------------------------

/// The multicast groups that announce addresses, as a bit mask.
pub open spec fn addr_groups(ipv6_enabled: bool) -> u32 {
    if ipv6_enabled {
        (1u32 << (RTNLGRP_IPV4_IFADDR - 1) as u32) | (1u32 << (RTNLGRP_IPV6_IFADDR - 1) as u32)
    } else {
        1u32 << (RTNLGRP_IPV4_IFADDR - 1) as u32
    }
}

/// The multicast groups that announce addresses, as a bit mask.
pub fn route_addr_groups(ipv6_enabled: bool) -> (r: u32)
    ensures
        r == addr_groups(ipv6_enabled),
{
    let mut groups: u32 = 1u32 << (RTNLGRP_IPV4_IFADDR - 1);
    if ipv6_enabled {
        groups = groups | (1u32 << (RTNLGRP_IPV6_IFADDR - 1));
    }
    groups
}

/// Whether an error number of a receive call only says that there is nothing to read now.
pub open spec fn transient_errno(errno: Option<i32>) -> bool {
    errno matches Some(code) && (code == EINTR || code == EAGAIN)
}

/// Whether a receive error only says that there is nothing to read now.
pub fn is_transient_recv_err(err: &IoError) -> (r: bool)
    ensures
        r == transient_errno(err.raw_os_error),
{
    match err.raw_os_error {
        Some(code) => code == EINTR || code == EAGAIN,
        None => false,
    }
}

/// What a receive call brought.
pub enum RecvOutcome {
    /// That many packets, at least one.
    Packets(usize),
    /// Nothing to read now.
    Idle,
    /// The call failed.
    Failed(AppError),
}

/// Reads the result of a receive call.
pub fn recv_outcome(result: Result<usize, IoError>) -> (r: RecvOutcome)
    ensures
        match result {
            Ok(n) => if n == 0 {
                r == RecvOutcome::Idle
            } else {
                r == RecvOutcome::Packets(n)
            },
            Err(e) => if transient_errno(e.raw_os_error) {
                r == RecvOutcome::Idle
            } else {
                r matches RecvOutcome::Failed(err) && err@ == error_of_io(e@)
            },
        },
{
    match result {
        Ok(n) => if n == 0 {
            RecvOutcome::Idle
        } else {
            RecvOutcome::Packets(n)
        },
        Err(e) => if is_transient_recv_err(&e) {
            RecvOutcome::Idle
        } else {
            RecvOutcome::Failed(AppError::from(e))
        },
    }
}

/// How the sending of a batch goes on.
#[derive(Debug, Clone, Copy, PartialEq, Eq, Structural)]
pub enum SendStep {
    /// Every message has gone out.
    Done,
    /// Go on with the message at this place.
    More(usize),
    /// The call took no message: an error of the kind `WriteZero`.
    WroteNone,
    /// The call failed.
    Failed,
}

/// Reads the return value of a send call that was offered the messages from `sent` to `total`.
pub fn send_step(sent: usize, total: usize, rc: i32) -> (r: SendStep)
    requires
        sent < total,
    ensures
        r == (if rc < 0 {
            SendStep::Failed
        } else if rc == 0 {
            SendStep::WroteNone
        } else if sent + rc >= total {
            SendStep::Done
        } else {
            SendStep::More((sent + rc) as usize)
        }),
        r matches SendStep::More(n) ==> n == sent + rc && n < total,
        r == SendStep::Done <==> rc > 0 && sent + rc >= total,
        r == SendStep::Failed <==> rc < 0,
        r == SendStep::WroteNone <==> rc == 0,
{
    if rc < 0 {
        return SendStep::Failed;
    }
    if rc == 0 {
        return SendStep::WroteNone;
    }
    if rc as u64 >= (total - sent) as u64 {
        SendStep::Done
    } else {
        SendStep::More(sent + rc as usize)
    }
}

} // verus!
