//! Reading the answer to a dump request.
use crate::bytes::ByteOrder;
use crate::error::{AppError, ErrorView};
use crate::netlink::codec::{
    ack_errno, error_view, item_view, parse_ack_errno, Item, Message, NetlinkMessageView,
};
use crate::netlink::socket::{collect_messages, item_views, packet_items, MmsgRxRing};
use crate::sys::{NLMSG_DONE, NLMSG_ERROR};
use crate::text::{dec_signed, push_dec_signed};
use vstd::prelude::*;

verus! {

/// How long the end of a dump is waited for, in nanoseconds.
pub const DUMP_WAIT_TIMEOUT: u64 = 5_000_000_000;

/// How far a dump has come.
#[derive(Debug, Clone, Copy, PartialEq, Eq, Structural)]
pub enum DumpPoll {
    /// Nothing to read now.
    Pending,
    /// Packets were read, and more are to come.
    Continue,
    /// The last packet was read.
    Done,
}

/// What some packets bring of a dump: its messages in order, whether its end is among them, and
/// the error that stopped the reading.
pub struct Dump {
    pub messages: Seq<Message>,
    pub done: bool,
    pub error: Option<ErrorView>,
}

/// The text of a refused dump.
pub open spec fn dump_refused_text(errno: int) -> Seq<char> {
    "dump ack errno="@ + dec_signed(errno)
}

/// What the items bring of the dump with a sequence number. Nothing is read past an error.
pub open spec fn dump_of(order: ByteOrder, received: Seq<Item>, seq: u32) -> Dump
    decreases received.len(),
{
    if received.len() == 0 {
        Dump { messages: Seq::empty(), done: false, error: None }
    } else {
        let before = dump_of(order, received.drop_last(), seq);
        if before.error is Some {
            before
        } else {
            match received.last() {
                Item::Error(e) => Dump { error: Some(e), ..before },
                Item::Message(m) => if m.header.nlmsg_seq != seq {
                    before
                } else if m.header.nlmsg_type == NLMSG_DONE {
                    Dump { done: true, ..before }
                } else if m.header.nlmsg_type == NLMSG_ERROR {
                    if m.data.len() < 4 {
                        Dump { error: Some(ErrorView::Netlink("short nlmsg error"@)), ..before }
                    } else {
                        match ack_errno(order, m.data) {
                            Some(errno) => Dump {
                                error: Some(ErrorView::Netlink(dump_refused_text(errno as int))),
                                ..before
                            },
                            None => before,
                        }
                    }
                } else {
                    Dump { messages: before.messages.push(m), ..before }
                },
            }
        }
    }
}

/// An error among the first items ends the reading of them all.
proof fn lemma_dump_error(order: ByteOrder, received: Seq<Item>, n: int, seq: u32)
    requires
        0 <= n <= received.len(),
        dump_of(order, received.subrange(0, n), seq).error is Some,
    ensures
        dump_of(order, received, seq) == dump_of(order, received.subrange(0, n), seq),
    decreases received.len() - n,
{
    if n == received.len() {
        assert(received.subrange(0, n) =~= received);
    } else {
        assert(received.subrange(0, n + 1).drop_last() =~= received.subrange(0, n));
        lemma_dump_error(order, received, n + 1, seq);
    }
}

/// The messages of a dump among the packets that were received.
pub struct DumpChunk<'a> {
    pub messages: Vec<NetlinkMessageView<'a>>,
    pub done: bool,
    pub error: Option<AppError>,
}

/// The views of a list of messages.
pub open spec fn message_views(s: Seq<NetlinkMessageView<'_>>) -> Seq<Message> {
    Seq::new(s.len(), |i: int| s[i]@)
}

impl<'a> View for DumpChunk<'a> {
    type V = Dump;

    open spec fn view(&self) -> Dump {
        Dump {
            messages: message_views(self.messages@),
            done: self.done,
            error: error_view(self.error),
        }
    }
}

impl<'a> DumpChunk<'a> {
    /// How far the dump has come. An error ends it, whether its last packet was read or not.
    pub fn poll(self) -> (r: Result<DumpPoll, AppError>)
        ensures
            match r {
                Ok(p) => self.error is None && p == (if self.done {
                    DumpPoll::Done
                } else {
                    DumpPoll::Continue
                }),
                Err(e) => self.error == Some(e),
            },
    {
        if let Some(e) = self.error {
            return Err(e);
        }
        if self.done {
            Ok(DumpPoll::Done)
        } else {
            Ok(DumpPoll::Continue)
        }
    }
}

/// The error of a refused dump.
fn dump_refused(errno: i32) -> (r: AppError)
    ensures
        r@ == ErrorView::Netlink(dump_refused_text(errno as int)),
{
    let mut s = String::new();
    s.append("dump ack errno=");
    push_dec_signed(&mut s, errno as i64);
    assert(s@ =~= dump_refused_text(errno as int));
    AppError::Netlink(s)
}

/// Reads the first `count` packets as part of the dump with a sequence number.
pub fn recv_step<'a>(order: ByteOrder, ring: &'a MmsgRxRing, count: usize, seq: u32) -> (r:
    DumpChunk<'a>)
    requires
        ring.wf(),
        count <= ring@.len(),
    ensures
        r@ == dump_of(order, packet_items(order, ring@.subrange(0, count as int)), seq),
{
    let mut received = collect_messages(order, ring, count);
    let ghost all = item_views(received@);
    assert(all.subrange(0, 0) =~= Seq::<Item>::empty());
    let mut chunk = DumpChunk { messages: Vec::new(), done: false, error: None };
    assert(chunk@.messages =~= Seq::<Message>::empty());
    let mut i: usize = 0;
    while i < received.len()
        invariant
            i <= received@.len(),
            all == item_views(received@),
            all == packet_items(order, ring@.subrange(0, count as int)),
            chunk.error is None,
            chunk@ == dump_of(order, all.subrange(0, i as int), seq),
        decreases received@.len() - i,
    {
        let ghost before = chunk@;
        let ghost upto = all.subrange(0, i + 1);
        proof {
            assert(upto.drop_last() =~= all.subrange(0, i as int));
            assert(upto.last() == item_view(received@[i as int]));
        }
        let found = match &received[i] {
            Ok(msg) => Some(*msg),
            Err(_) => None,
        };
        match found {
            None => {
                if let Err(e) = received.swap_remove(i) {
                    chunk.error = Some(e);
                }
                proof {
                    lemma_dump_error(order, all, i + 1, seq);
                }
                return chunk;
            },
            Some(msg) => if msg.header.nlmsg_seq == seq {
                if msg.header.nlmsg_type == NLMSG_DONE {
                    chunk.done = true;
                } else if msg.header.nlmsg_type == NLMSG_ERROR {
                    match parse_ack_errno(order, msg.data) {
                        Err(e) => {
                            chunk.error = Some(e);
                            proof {
                                lemma_dump_error(order, all, i + 1, seq);
                            }
                            return chunk;
                        },
                        Ok(Some(errno)) => {
                            chunk.error = Some(dump_refused(errno));
                            proof {
                                lemma_dump_error(order, all, i + 1, seq);
                            }
                            return chunk;
                        },
                        Ok(None) => {},
                    }
                } else {
                    chunk.messages.push(msg);
                    assert(chunk@.messages =~= before.messages.push(msg@));
                }
            },
        }
        i = i + 1;
    }
    assert(all.subrange(0, all.len() as int) =~= all);
    chunk
}

/// Goes on with a dump after a wait, or gives it up where nothing came in time.
pub fn after_dump_wait(readable: bool) -> (r: Result<(), AppError>)
    ensures
        r is Ok <==> readable,
        r matches Err(e) ==> e@ == ErrorView::Netlink("dump wait timeout"@),
{
    if readable {
        Ok(())
    } else {
        Err(AppError::netlink("dump wait timeout"))
    }
}

} // verus!
