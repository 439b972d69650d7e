//! Rule messages, and the tracking of their acknowledgements.
use crate::bytes::{u32_bytes, ByteOrder};
use crate::error::{AppError, ErrorView};
use crate::ip_key::{be128, be32, key_of, octets, IpAddr, IpKey};
use crate::netlink::codec::{
    ack_error, append_nla, append_nla_u32, batch_index, header_bytes, header_reads_back,
    item_view, items, next_item, nla_bytes, nla_reads_back, nlas, nlas_error,
    parse_ack_error_info, push_header, reserve_seq_block, seq_after, seq_norm,
    seq_to_batch_index, seq_with_offset, text_view, AckError, ExtAckText, Item, Message,
    NetlinkHeader, Nla, FRA_ATTR_DST, FRA_ATTR_PRIORITY, FRA_ATTR_TABLE, NLMSG_HEADER_LEN,
};
use crate::netlink::linux_types::{
    push_rtmsg, rtmsg_at, rtmsg_bytes, rtmsg_reads_back, RtMsg, RTMSG_LEN,
};
use crate::netlink::socket::{collect_messages, item_views, packet_items, MmsgRxRing};
use crate::sys::{
    AF_INET, AF_INET6, EEXIST, ENOENT, ESRCH, NLMSG_ERROR, NLM_F_ACK, NLM_F_CREATE, NLM_F_EXCL,
    NLM_F_REQUEST, RTM_DELRULE, RTM_NEWRULE, RTN_UNICAST, RTPROT_BOOT, RT_SCOPE_UNIVERSE,
};
use crate::text::{dec, push_dec};
use vstd::prelude::*;

verus! {

/// How long an acknowledgement is waited for, in nanoseconds.
pub const ACK_WAIT_TIMEOUT: u64 = 5_000_000_000;

/// What is done to a rule.
#[derive(Debug, Clone, Copy, PartialEq, Eq, Hash, Structural)]
pub enum RuleAction {
    Delete,
    Add,
}

/// A change of the rule for one address.
#[derive(Debug, Clone, Copy, PartialEq, Eq)]
pub struct RuleOp {
    pub addr: IpAddr,
    pub action: RuleAction,
}

impl RuleOp {
    /// Whether the rule is added.
    pub fn is_add(&self) -> (r: bool)
        ensures
            r == (self.action == RuleAction::Add),
    {
        self.action == RuleAction::Add
    }
}

/// The priority and the routing table that every rule of the daemon has.
#[derive(Debug, Clone, Copy, PartialEq, Eq, Structural)]
pub struct RuleContext {
    pub pref: u32,
    pub table_id: u32,
}

/// The context of a nonzero priority and table.
pub fn new_rule_context(pref: u32, table_id: u32) -> (r: RuleContext)
    requires
        pref != 0,
        table_id != 0,
    ensures
        r == (RuleContext { pref, table_id }),
{
    RuleContext { pref, table_id }
}

// ---------------------------------------------------------------------------
// Acknowledgements
// ---------------------------------------------------------------------------

/// A refusal of one message of a batch.
#[derive(Debug, Clone, Copy, PartialEq, Eq)]
pub struct NetlinkAckStatus {
    pub errno: i32,
    pub ext_msg: Option<ExtAckText>,
    pub ext_offset: Option<u32>,
}

impl View for NetlinkAckStatus {
    type V = AckError;

    open spec fn view(&self) -> AckError {
        AckError {
            errno: self.errno,
            ext_msg: text_view(self.ext_msg),
            ext_offset: self.ext_offset,
        }
    }
}

/// The view of an optional refusal.
pub open spec fn status_view(s: Option<NetlinkAckStatus>) -> Option<AckError> {
    match s {
        Some(s) => Some(s@),
        None => None,
    }
}

/// What an acknowledgement means for the rule.
#[derive(Debug, Clone, Copy, PartialEq, Eq, Structural)]
pub enum RuleAckClass {
    /// The change was made.
    Applied,
    /// The rule to add was there already.
    EexistNoop,
    /// The rule to delete was gone already.
    EnoentNoop,
    /// The kernel refused the change.
    KernelErr,
}

/// What an acknowledgement with an error number, or none for success, means for the rule.
pub open spec fn ack_class(add: bool, errno: Option<i32>) -> RuleAckClass {
    match errno {
        None => RuleAckClass::Applied,
        Some(code) => if add && code == EEXIST {
            RuleAckClass::EexistNoop
        } else if !add && (code == ENOENT || code == ESRCH) {
            RuleAckClass::EnoentNoop
        } else {
            RuleAckClass::KernelErr
        },
    }
}

/// Tells what an acknowledgement means for the rule.
pub fn classify_ack_for_op(op: RuleOp, status: Option<&NetlinkAckStatus>) -> (r: RuleAckClass)
    ensures
        r == ack_class(op.action == RuleAction::Add, match status {
            Some(s) => Some(s.errno),
            None => None,
        }),
{
    match status {
        None => RuleAckClass::Applied,
        Some(s) => {
            if op.is_add() && s.errno == EEXIST {
                return RuleAckClass::EexistNoop;
            }
            if !op.is_add() && (s.errno == ENOENT || s.errno == ESRCH) {
                return RuleAckClass::EnoentNoop;
            }
            RuleAckClass::KernelErr
        },
    }
}

/// Why the wait for acknowledgements ended.
#[derive(Debug, Clone, Copy, PartialEq, Eq, Structural)]
pub enum AckWaitErrorKind {
    Timeout,
    SeqMismatch,
    NonAck,
}

/// What was still open when the wait for acknowledgements ended.
#[derive(Debug, Clone, Copy, PartialEq, Eq, Structural)]
pub struct AckWaitError {
    pub kind: AckWaitErrorKind,
    pub pending: usize,
    pub count_seq_mismatch: usize,
    pub count_non_ack: usize,
}

/// The word for why a wait ended.
pub open spec fn wait_kind_name(kind: AckWaitErrorKind) -> Seq<char> {
    match kind {
        AckWaitErrorKind::Timeout => "timeout"@,
        AckWaitErrorKind::SeqMismatch => "seq_mismatch"@,
        AckWaitErrorKind::NonAck => "non_ack"@,
    }
}

/// The text of a wait that ended without all acknowledgements.
pub open spec fn wait_error_text(e: AckWaitError) -> Seq<char> {
    "ack_wait_failed kind="@ + wait_kind_name(e.kind) + " pending="@ + dec(e.pending as nat)
        + " count_seq_mismatch="@ + dec(e.count_seq_mismatch as nat) + " count_non_ack="@ + dec(
        e.count_non_ack as nat,
    )
}

impl AckWaitError {
    /// The error to report.
    pub fn to_app_error(&self) -> (r: AppError)
        ensures
            r@ == ErrorView::Netlink(wait_error_text(*self)),
    {
        let mut s = String::new();
        s.append("ack_wait_failed kind=");
        s.append(
            match self.kind {
                AckWaitErrorKind::Timeout => "timeout",
                AckWaitErrorKind::SeqMismatch => "seq_mismatch",
                AckWaitErrorKind::NonAck => "non_ack",
            },
        );
        s.append(" pending=");
        push_dec(&mut s, self.pending as u128);
        s.append(" count_seq_mismatch=");
        push_dec(&mut s, self.count_seq_mismatch as u128);
        s.append(" count_non_ack=");
        push_dec(&mut s, self.count_non_ack as u128);
        assert(s@ =~= wait_error_text(*self));
        AppError::Netlink(s)
    }
}

/// Which messages of a batch have been acknowledged, and how.
pub struct AckTracker {
    pub seen: Vec<bool>,
    pub status: Vec<Option<NetlinkAckStatus>>,
    pub pending: usize,
    pub count_seq_mismatch: usize,
    pub count_non_ack: usize,
}

/// An `AckTracker` as sequences: `seen` tells which messages were acknowledged, `status` holds
/// the refusals.
pub struct Tracker {
    pub seen: Seq<bool>,
    pub status: Seq<Option<AckError>>,
    pub pending: int,
    pub count_seq_mismatch: int,
    pub count_non_ack: int,
}

impl View for AckTracker {
    type V = Tracker;

    open spec fn view(&self) -> Tracker {
        Tracker {
            seen: self.seen@,
            status: Seq::new(self.status@.len(), |i: int| status_view(self.status@[i])),
            pending: self.pending as int,
            count_seq_mismatch: self.count_seq_mismatch as int,
            count_non_ack: self.count_non_ack as int,
        }
    }
}

/// How many entries are `false`.
pub open spec fn unseen(seen: Seq<bool>) -> int
    decreases seen.len(),
{
    if seen.len() == 0 {
        0
    } else {
        unseen(seen.drop_last()) + if seen.last() {
            0int
        } else {
            1
        }
    }
}

/// The count of unseen entries lies between zero and the length, and is zero where all are seen.
pub proof fn lemma_unseen_bounds(seen: Seq<bool>)
    ensures
        0 <= unseen(seen) <= seen.len(),
        unseen(seen) == 0 <==> forall|i: int| 0 <= i < seen.len() ==> seen[i],
    decreases seen.len(),
{
    if seen.len() > 0 {
        let init = seen.drop_last();
        lemma_unseen_bounds(init);
        assert(forall|i: int| 0 <= i < init.len() ==> init[i] == seen[i]);
        if unseen(seen) == 0 {
            assert forall|i: int| 0 <= i < seen.len() implies seen[i] by {
                if i < init.len() {
                    assert(init[i]);
                }
            }
        }
    }
}

/// To see one more entry takes one off the count.
proof fn lemma_unseen_update(seen: Seq<bool>, i: int)
    requires
        0 <= i < seen.len(),
        !seen[i],
    ensures
        unseen(seen.update(i, true)) == unseen(seen) - 1,
    decreases seen.len(),
{
    let next = seen.update(i, true);
    if i == seen.len() - 1 {
        assert(next.drop_last() =~= seen.drop_last());
    } else {
        lemma_unseen_update(seen.drop_last(), i);
        assert(next.drop_last() =~= seen.drop_last().update(i, true));
    }
}

/// Where nothing was seen the count is the length.
proof fn lemma_unseen_none(seen: Seq<bool>)
    requires
        forall|i: int| 0 <= i < seen.len() ==> !seen[i],
    ensures
        unseen(seen) == seen.len(),
    decreases seen.len(),
{
    if seen.len() > 0 {
        lemma_unseen_none(seen.drop_last());
    }
}

/// The tracker of a batch of which nothing was acknowledged yet.
pub open spec fn fresh_tracker(n: nat) -> Tracker {
    Tracker {
        seen: Seq::new(n, |i: int| false),
        status: Seq::new(n, |i: int| None::<AckError>),
        pending: n as int,
        count_seq_mismatch: 0,
        count_non_ack: 0,
    }
}

/// The tracker after a message that is no acknowledgement. Counts stop at the greatest number.
pub open spec fn with_non_ack(t: Tracker) -> Tracker {
    Tracker {
        count_non_ack: if t.count_non_ack < usize::MAX {
            t.count_non_ack + 1
        } else {
            t.count_non_ack
        },
        ..t
    }
}

/// The tracker after an acknowledgement of some other batch.
pub open spec fn with_seq_mismatch(t: Tracker) -> Tracker {
    Tracker {
        count_seq_mismatch: if t.count_seq_mismatch < usize::MAX {
            t.count_seq_mismatch + 1
        } else {
            t.count_seq_mismatch
        },
        ..t
    }
}

/// The tracker after an acknowledgement of the message at `idx`. The first one counts.
pub open spec fn with_status(t: Tracker, idx: int, status: Option<AckError>) -> Tracker {
    if 0 <= idx < t.seen.len() && !t.seen[idx] {
        Tracker {
            seen: t.seen.update(idx, true),
            status: t.status.update(idx, status),
            pending: t.pending - 1,
            ..t
        }
    } else {
        t
    }
}

impl Tracker {
    /// Every message has an entry, and `pending` counts the messages without acknowledgement.
    pub open spec fn wf(self) -> bool {
        &&& self.seen.len() == self.status.len()
        &&& self.pending == unseen(self.seen)
    }
}

impl Default for AckTracker {
    /// The tracker of an empty batch.
    fn default() -> (r: Self)
        ensures
            r@ == fresh_tracker(0),
            r@.wf(),
    {
        let r = AckTracker {
            seen: Vec::new(),
            status: Vec::new(),
            pending: 0,
            count_seq_mismatch: 0,
            count_non_ack: 0,
        };
        assert(r@.seen =~= fresh_tracker(0).seen);
        assert(r@.status =~= fresh_tracker(0).status);
        r
    }
}

impl AckTracker {
    /// Every message has an entry, and `pending` counts the messages without acknowledgement.
    pub open spec fn wf(&self) -> bool {
        self@.wf()
    }

    /// Makes the tracker ready for a batch.
    pub fn prepare(&mut self, batch_len: usize)
        ensures
            final(self)@ == fresh_tracker(batch_len as nat),
            final(self).wf(),
    {
        self.seen.clear();
        self.status.clear();
        for i in 0..batch_len
            invariant
                self.seen@.len() == i,
                self.status@.len() == i,
                forall|j: int| 0 <= j < i ==> !self.seen@[j],
                forall|j: int| 0 <= j < i ==> self.status@[j] is None,
        {
            self.seen.push(false);
            self.status.push(None);
        }
        self.pending = batch_len;
        self.count_seq_mismatch = 0;
        self.count_non_ack = 0;
        proof {
            lemma_unseen_none(self.seen@);
            assert(self@.seen =~= fresh_tracker(batch_len as nat).seen);
            assert(self@.status =~= fresh_tracker(batch_len as nat).status);
        }
    }

    /// How many acknowledgements are still to come.
    pub fn pending(&self) -> (r: usize)
        ensures
            r == self@.pending,
    {
        self.pending
    }

    /// Whether the message at `idx` was acknowledged.
    pub fn seen_at(&self, idx: usize) -> (r: bool)
        ensures
            r == (idx < self@.seen.len() && self@.seen[idx as int]),
    {
        idx < self.seen.len() && self.seen[idx]
    }

    /// The refusal of the message at `idx`, if any.
    pub fn status_at(&self, idx: usize) -> (r: Option<&NetlinkAckStatus>)
        ensures
            match r {
                Some(s) => idx < self@.status.len() && self@.status[idx as int] == Some(s@),
                None => idx < self@.status.len() ==> self@.status[idx as int] is None,
            },
    {
        if idx < self.status.len() {
            match &self.status[idx] {
                Some(s) => Some(s),
                None => None,
            }
        } else {
            None
        }
    }

    /// Counts a message that is no acknowledgement.
    pub fn mark_non_ack(&mut self)
        ensures
            final(self)@ == with_non_ack(old(self)@),
            old(self).wf() ==> final(self).wf(),
    {
        self.count_non_ack = self.count_non_ack.saturating_add(1);
    }

    /// Counts an acknowledgement of some other batch.
    pub fn mark_seq_mismatch(&mut self)
        ensures
            final(self)@ == with_seq_mismatch(old(self)@),
            old(self).wf() ==> final(self).wf(),
    {
        self.count_seq_mismatch = self.count_seq_mismatch.saturating_add(1);
    }

    /// Takes an acknowledgement of the message at `idx`.
    pub fn mark_status(&mut self, idx: usize, status: Option<NetlinkAckStatus>)
        requires
            old(self).wf(),
        ensures
            final(self)@ == with_status(old(self)@, idx as int, status_view(status)),
            final(self).wf(),
    {
        if idx >= self.seen.len() || self.seen[idx] {
            return;
        }
        proof {
            lemma_unseen_bounds(self.seen@);
            lemma_unseen_update(self.seen@, idx as int);
            lemma_unseen_bounds(self.seen@.update(idx as int, true));
        }
        self.seen[idx] = true;
        self.status[idx] = status;
        self.pending = self.pending - 1;
        assert(self@.status =~= old(self)@.status.update(idx as int, status_view(status)));
    }
}

/// Why a wait that ends now ends: a mismatch where there were only mismatches, a stray message
/// where there were only those, else a timeout.
pub open spec fn wait_error(t: Tracker) -> AckWaitErrorKind {
    if t.count_seq_mismatch > 0 && t.count_non_ack == 0 {
        AckWaitErrorKind::SeqMismatch
    } else if t.count_non_ack > 0 && t.count_seq_mismatch == 0 {
        AckWaitErrorKind::NonAck
    } else {
        AckWaitErrorKind::Timeout
    }
}

/// Tells why a wait that ends now ends.
pub fn classify_wait_error(tracker: &AckTracker) -> (r: AckWaitError)
    ensures
        r == (AckWaitError {
            kind: wait_error(tracker@),
            pending: tracker.pending,
            count_seq_mismatch: tracker.count_seq_mismatch,
            count_non_ack: tracker.count_non_ack,
        }),
{
    let kind = if tracker.count_seq_mismatch > 0 && tracker.count_non_ack == 0 {
        AckWaitErrorKind::SeqMismatch
    } else if tracker.count_non_ack > 0 && tracker.count_seq_mismatch == 0 {
        AckWaitErrorKind::NonAck
    } else {
        AckWaitErrorKind::Timeout
    };
    AckWaitError {
        kind,
        pending: tracker.pending,
        count_seq_mismatch: tracker.count_seq_mismatch,
        count_non_ack: tracker.count_non_ack,
    }
}

/// The tracker after one message that was received.
pub open spec fn after_message(
    order: ByteOrder,
    t: Tracker,
    m: Message,
    first_seq: u32,
    batch_len: int,
) -> Tracker {
    if m.header.nlmsg_type != NLMSG_ERROR {
        with_non_ack(t)
    } else {
        match batch_index(m.header.nlmsg_seq, first_seq, batch_len) {
            None => with_seq_mismatch(t),
            Some(idx) => with_status(t, idx, ack_error(order, m.data)),
        }
    }
}

/// The error that one item stops the reading with, if any.
pub open spec fn ack_item_error(item: Item, first_seq: u32, batch_len: int) -> Option<ErrorView> {
    match item {
        Item::Error(e) => Some(e),
        Item::Message(m) => if m.header.nlmsg_type == NLMSG_ERROR && batch_index(
            m.header.nlmsg_seq,
            first_seq,
            batch_len,
        ) is Some && m.data.len() < 4 {
            Some(ErrorView::Netlink("short nlmsg error"@))
        } else {
            None
        },
    }
}

/// The tracker after the items, which are taken up to the first error.
pub open spec fn after_items(
    order: ByteOrder,
    t: Tracker,
    received: Seq<Item>,
    first_seq: u32,
    batch_len: int,
) -> (Tracker, Option<ErrorView>)
    decreases received.len(),
{
    if received.len() == 0 {
        (t, None)
    } else {
        let (before, error) = after_items(
            order,
            t,
            received.drop_last(),
            first_seq,
            batch_len,
        );
        if error is Some {
            (before, error)
        } else {
            match ack_item_error(received.last(), first_seq, batch_len) {
                Some(e) => (before, Some(e)),
                None => (
                    after_message(order, before, received.last()->Message_0, first_seq, batch_len),
                    None,
                ),
            }
        }
    }
}

/// An error among the first items ends the reading of them all.
proof fn lemma_after_items_error(
    order: ByteOrder,
    t: Tracker,
    received: Seq<Item>,
    n: int,
    first_seq: u32,
    batch_len: int,
)
    requires
        0 <= n <= received.len(),
        after_items(order, t, received.subrange(0, n), first_seq, batch_len).1 is Some,
    ensures
        after_items(order, t, received, first_seq, batch_len) == after_items(
            order,
            t,
            received.subrange(0, n),
            first_seq,
            batch_len,
        ),
    decreases received.len() - n,
{
    if n == received.len() {
        assert(received.subrange(0, n) =~= received);
    } else {
        assert(received.subrange(0, n + 1).drop_last() =~= received.subrange(0, n));
        lemma_after_items_error(order, t, received, n + 1, first_seq, batch_len);
    }
}

/// Takes the acknowledgements among the first `count` packets.
pub fn drain_apply_ack_messages(
    order: ByteOrder,
    ring: &MmsgRxRing,
    count: usize,
    first_seq: u32,
    batch_len: usize,
    tracker: &mut AckTracker,
) -> (r: Result<(), AppError>)
    requires
        ring.wf(),
        count <= ring@.len(),
        old(tracker).wf(),
    ensures
        final(tracker).wf(),
        final(tracker)@ == after_items(
            order,
            old(tracker)@,
            packet_items(order, ring@.subrange(0, count as int)),
            first_seq,
            batch_len as int,
        ).0,
        match r {
            Ok(_) => after_items(
                order,
                old(tracker)@,
                packet_items(order, ring@.subrange(0, count as int)),
                first_seq,
                batch_len as int,
            ).1 is None,
            Err(e) => after_items(
                order,
                old(tracker)@,
                packet_items(order, ring@.subrange(0, count as int)),
                first_seq,
                batch_len as int,
            ).1 == Some(e@),
        },
{
    let received = collect_messages(order, ring, count);
    let ghost all = item_views(received@);
    let ghost start = tracker@;
    assert(all.subrange(0, 0) =~= Seq::<Item>::empty());
    let mut i: usize = 0;
    let mut rest = received;
    while i < rest.len()
        invariant
            i <= rest@.len(),
            all == item_views(rest@),
            all == packet_items(order, ring@.subrange(0, count as int)),
            start == old(tracker)@,
            tracker.wf(),
            after_items(order, start, all.subrange(0, i as int), first_seq, batch_len as int) == (
                tracker@,
                None::<ErrorView>,
            ),
        decreases rest@.len() - i,
    {
        let ghost upto = all.subrange(0, i + 1);
        proof {
            assert(upto.drop_last() =~= all.subrange(0, i as int));
            assert(upto.last() == item_view(rest@[i as int]));
        }
        match &rest[i] {
            Err(_) => {
                proof {
                    lemma_after_items_error(
                        order,
                        start,
                        all,
                        i + 1,
                        first_seq,
                        batch_len as int,
                    );
                }
                let taken = rest.swap_remove(i);
                return match taken {
                    Err(e) => Err(e),
                    Ok(_) => Ok(()),
                };
            },
            Ok(msg) => {
                if msg.header.nlmsg_type != NLMSG_ERROR {
                    tracker.mark_non_ack();
                } else {
                    match seq_to_batch_index(msg.header.nlmsg_seq, first_seq, batch_len) {
                        None => {
                            tracker.mark_seq_mismatch();
                        },
                        Some(idx) => match parse_ack_error_info(order, msg.data) {
                            Err(e) => {
                                proof {
                                    lemma_after_items_error(
                                        order,
                                        start,
                                        all,
                                        i + 1,
                                        first_seq,
                                        batch_len as int,
                                    );
                                }
                                return Err(e);
                            },
                            Ok(info) => {
                                let status = match info {
                                    Some(info) => Some(
                                        NetlinkAckStatus {
                                            errno: info.errno,
                                            ext_msg: info.ext_msg,
                                            ext_offset: info.ext_offset,
                                        },
                                    ),
                                    None => None,
                                };
                                tracker.mark_status(idx, status);
                            },
                        },
                    }
                }
            },
        }
        i = i + 1;
    }
    assert(all.subrange(0, all.len() as int) =~= all);
    Ok(())
}

// ---------------------------------------------------------------------------
// Messages
// ---------------------------------------------------------------------------

/// The family number, the octet count and the prefix length of an address.
pub open spec fn addr_family(addr: IpAddr) -> u8 {
    match addr {
        IpAddr::V4(_) => AF_INET as u8,
        IpAddr::V6(_) => AF_INET6 as u8,
    }
}

/// The length in bits of an address.
pub open spec fn addr_bits(addr: IpAddr) -> u8 {
    match addr {
        IpAddr::V4(_) => 32,
        IpAddr::V6(_) => 128,
    }
}

/// The body of the message for a rule.
pub open spec fn rule_body(ctx: RuleContext, op: RuleOp) -> RtMsg {
    RtMsg {
        rtm_family: addr_family(op.addr),
        rtm_dst_len: addr_bits(op.addr),
        rtm_src_len: 0,
        rtm_tos: 0,
        rtm_table: if ctx.table_id <= 255 {
            ctx.table_id as u8
        } else {
            0
        },
        rtm_protocol: RTPROT_BOOT,
        rtm_scope: RT_SCOPE_UNIVERSE,
        rtm_type: RTN_UNICAST,
        rtm_flags: 0,
    }
}

/// What follows the header in the message for a rule.
pub open spec fn rule_data(order: ByteOrder, ctx: RuleContext, op: RuleOp) -> Seq<u8> {
    rtmsg_bytes(order, rule_body(ctx, op)) + nla_bytes(order, FRA_ATTR_DST, octets(op.addr))
        + nla_bytes(order, FRA_ATTR_PRIORITY, u32_bytes(order, ctx.pref)) + nla_bytes(
        order,
        FRA_ATTR_TABLE,
        u32_bytes(order, ctx.table_id),
    )
}

/// The header of the message for a rule. An existing rule is never replaced.
pub open spec fn rule_header(ctx: RuleContext, op: RuleOp, seq: u32) -> NetlinkHeader {
    NetlinkHeader {
        nlmsg_len: match op.addr {
            IpAddr::V4(_) => 52,
            IpAddr::V6(_) => 64,
        },
        nlmsg_type: if op.action == RuleAction::Add {
            RTM_NEWRULE
        } else {
            RTM_DELRULE
        },
        nlmsg_flags: if op.action == RuleAction::Add {
            NLM_F_REQUEST | NLM_F_ACK | (NLM_F_CREATE | NLM_F_EXCL)
        } else {
            NLM_F_REQUEST | NLM_F_ACK
        },
        nlmsg_seq: seq,
        nlmsg_pid: 0,
    }
}

/// The bytes of the message for a rule.
pub open spec fn rule_message(
    order: ByteOrder,
    ctx: RuleContext,
    op: RuleOp,
    seq: u32,
) -> Seq<u8> {
    header_bytes(order, rule_header(ctx, op, seq)) + rule_data(order, ctx, op)
}

/// The message for a rule is as long as its header says, and needs no padding.
pub proof fn rule_message_length(order: ByteOrder, ctx: RuleContext, op: RuleOp, seq: u32)
    ensures
        rule_message(order, ctx, op, seq).len() == rule_header(ctx, op, seq).nlmsg_len,
        rule_message(order, ctx, op, seq).len() % 4 == 0,
        rule_data(order, ctx, op).len() + NLMSG_HEADER_LEN == rule_message(
            order,
            ctx,
            op,
            seq,
        ).len(),
{
}

/// The family number, the octets and the prefix length of an address.
pub fn addr_to_netlink(addr: IpAddr) -> (r: (u8, Vec<u8>, u8))
    ensures
        r.0 == addr_family(addr),
        r.1@ == octets(addr),
        r.2 == addr_bits(addr),
{
    let mut out: Vec<u8> = Vec::new();
    match addr {
        IpAddr::V4(o) => {
            out.extend_from_slice(o.as_slice());
            assert(out@ =~= o@);
            (2, out, 32)
        },
        IpAddr::V6(o) => {
            out.extend_from_slice(o.as_slice());
            assert(out@ =~= o@);
            (10, out, 128)
        },
    }
}

/// The key of the address whose octets the bytes start with, if there are enough.
pub open spec fn raw_key(family: u8, raw: Seq<u8>) -> Option<IpKey> {
    if family == AF_INET && raw.len() >= 4 {
        Some(IpKey::V4(be32(raw, 0) as u32))
    } else if family == AF_INET6 && raw.len() >= 16 {
        Some(IpKey::V6(be128(raw) as u128))
    } else {
        None
    }
}

/// The key of an optional address.
pub open spec fn opt_key(addr: Option<IpAddr>) -> Option<IpKey> {
    match addr {
        Some(addr) => Some(key_of(addr)),
        None => None,
    }
}

/// The address whose octets the bytes start with; `None` for another family or too few bytes.
pub fn addr_from_netlink(family: u8, raw: &[u8]) -> (r: Option<IpAddr>)
    ensures
        opt_key(r) == raw_key(family, raw@),
{
    if family as i32 == AF_INET {
        if raw.len() < 4 {
            return None;
        }
        return Some(IpAddr::V4([raw[0], raw[1], raw[2], raw[3]]));
    }
    if family as i32 == AF_INET6 {
        if raw.len() < 16 {
            return None;
        }
        return Some(
            IpAddr::V6(
                [
                    raw[0], raw[1], raw[2], raw[3], raw[4], raw[5], raw[6], raw[7], raw[8], raw[9],
                    raw[10], raw[11], raw[12], raw[13], raw[14], raw[15],
                ],
            ),
        );
    }
    None
}

/// Appends the message for a rule.
pub fn build_rule_message_into(
    order: ByteOrder,
    dst: &mut Vec<u8>,
    rule_ctx: RuleContext,
    op: RuleOp,
    seq: u32,
)
    ensures
        final(dst)@ == old(dst)@ + rule_message(order, rule_ctx, op, seq),
{
    let (family, addr, dst_len) = addr_to_netlink(op.addr);
    let nlmsg_type: u16 = if op.is_add() {
        RTM_NEWRULE
    } else {
        RTM_DELRULE
    };
    let mut nlmsg_flags: u16 = NLM_F_REQUEST | NLM_F_ACK;
    if op.is_add() {
        nlmsg_flags = nlmsg_flags | (NLM_F_CREATE | NLM_F_EXCL);
    }
    let nlmsg_len: u32 = match op.addr {
        IpAddr::V4(_) => 52,
        IpAddr::V6(_) => 64,
    };
    let rtm = RtMsg {
        rtm_family: family,
        rtm_dst_len: dst_len,
        rtm_src_len: 0,
        rtm_tos: 0,
        rtm_table: if rule_ctx.table_id <= 255 {
            rule_ctx.table_id as u8
        } else {
            0
        },
        rtm_protocol: RTPROT_BOOT,
        rtm_scope: RT_SCOPE_UNIVERSE,
        rtm_type: RTN_UNICAST,
        rtm_flags: 0,
    };
    push_header(
        order,
        dst,
        NetlinkHeader { nlmsg_len, nlmsg_type, nlmsg_flags, nlmsg_seq: seq, nlmsg_pid: 0 },
    );
    push_rtmsg(order, dst, rtm);
    append_nla(order, dst, FRA_ATTR_DST, addr.as_slice());
    append_nla_u32(order, dst, FRA_ATTR_PRIORITY, rule_ctx.pref);
    append_nla_u32(order, dst, FRA_ATTR_TABLE, rule_ctx.table_id);
    assert(dst@ =~= old(dst)@ + rule_message(order, rule_ctx, op, seq));
}

/// The messages of a batch, with the sequence numbers from `first_seq` on.
pub open spec fn batch_messages(
    order: ByteOrder,
    ctx: RuleContext,
    ops: Seq<RuleOp>,
    first_seq: u32,
) -> Seq<Seq<u8>> {
    Seq::new(
        ops.len(),
        |i: int| rule_message(order, ctx, ops[i], seq_after(first_seq, i) as u32),
    )
}

/// The views of a list of byte strings.
pub open spec fn byte_views(v: Seq<Vec<u8>>) -> Seq<Seq<u8>> {
    Seq::new(v.len(), |i: int| v[i]@)
}

/// A batch that is ready to be sent.
pub struct RulesBatch {
    pub first_seq: u32,
    pub messages: Vec<Vec<u8>>,
}

/// Takes sequence numbers for a batch and builds its messages. An empty batch takes none.
pub fn start_apply_rules_batch(
    order: ByteOrder,
    next: &mut u32,
    rule_ctx: RuleContext,
    ops: &[RuleOp],
) -> (r: RulesBatch)
    ensures
        ops@.len() == 0 ==> r.first_seq == 0 && *final(next) == *old(next),
        ops@.len() > 0 ==> r.first_seq == seq_norm(*old(next)) && *final(next) == seq_after(
            *old(next),
            ops@.len() as int,
        ),
        byte_views(r.messages@) == batch_messages(order, rule_ctx, ops@, r.first_seq),
{
    let mut messages: Vec<Vec<u8>> = Vec::new();
    if ops.len() == 0 {
        let r = RulesBatch { first_seq: 0, messages };
        assert(byte_views(r.messages@) =~= batch_messages(order, rule_ctx, ops@, 0));
        return r;
    }
    let first_seq: u32 = reserve_seq_block(next, ops.len());
    for i in 0..ops.len()
        invariant
            messages@.len() == i,
            forall|j: int|
                0 <= j < i ==> #[trigger] messages@[j]@ == rule_message(
                    order,
                    rule_ctx,
                    ops@[j],
                    seq_after(first_seq, j) as u32,
                ),
    {
        let mut msg: Vec<u8> = Vec::with_capacity(128);
        build_rule_message_into(order, &mut msg, rule_ctx, ops[i], seq_with_offset(first_seq, i));
        assert(msg@ =~= rule_message(
            order,
            rule_ctx,
            ops@[i as int],
            seq_after(first_seq, i as int) as u32,
        ));
        messages.push(msg);
    }
    assert(byte_views(messages@) =~= batch_messages(order, rule_ctx, ops@, first_seq));
    RulesBatch { first_seq, messages }
}

/// The message for a rule is read back as one message with the header it was built with.
pub proof fn rule_message_reads_back(order: ByteOrder, ctx: RuleContext, op: RuleOp, seq: u32)
    ensures
        items(order, rule_message(order, ctx, op, seq)) == seq![
            Item::Message(
                Message {
                    header: rule_header(ctx, op, seq),
                    data: rule_data(order, ctx, op),
                },
            ),
        ],
{
    let h = rule_header(ctx, op, seq);
    let data = rule_data(order, ctx, op);
    let raw = rule_message(order, ctx, op, seq);
    rule_message_length(order, ctx, op, seq);
    header_reads_back(order, h, data);
    assert(raw.subrange(NLMSG_HEADER_LEN as int, raw.len() as int) =~= data);
    let rest = raw.subrange(raw.len() as int, raw.len() as int);
    assert(rest =~= Seq::<u8>::empty());
    assert(items(order, rest) =~= Seq::<Item>::empty());
    let item = Item::Message(Message { header: h, data });
    assert(next_item(order, raw) == (item, rest));
    assert(seq![item] + items(order, rest) =~= seq![item]);
}

/// The attributes in the message for a rule: address, priority and table.
pub open spec fn rule_attrs(order: ByteOrder, ctx: RuleContext, op: RuleOp) -> Seq<Nla> {
    seq![
        Nla { typ: FRA_ATTR_DST, value: octets(op.addr) },
        Nla { typ: FRA_ATTR_PRIORITY, value: u32_bytes(order, ctx.pref) },
        Nla { typ: FRA_ATTR_TABLE, value: u32_bytes(order, ctx.table_id) },
    ]
}

/// The data of the message for a rule is read back as its body and, after that, exactly the
/// attributes for address, priority and table.
pub proof fn rule_data_reads_back(order: ByteOrder, ctx: RuleContext, op: RuleOp)
    ensures
        rule_data(order, ctx, op).len() >= RTMSG_LEN,
        rtmsg_at(order, rule_data(order, ctx, op)) == rule_body(ctx, op),
        nlas(
            order,
            rule_data(order, ctx, op).subrange(
                RTMSG_LEN as int,
                rule_data(order, ctx, op).len() as int,
            ),
        ) == rule_attrs(order, ctx, op),
        nlas_error(
            order,
            rule_data(order, ctx, op).subrange(
                RTMSG_LEN as int,
                rule_data(order, ctx, op).len() as int,
            ),
        ) is None,
{
    let data = rule_data(order, ctx, op);
    let body = rtmsg_bytes(order, rule_body(ctx, op));
    let pref = u32_bytes(order, ctx.pref);
    let table = u32_bytes(order, ctx.table_id);
    let a = nla_bytes(order, FRA_ATTR_DST, octets(op.addr));
    let b = nla_bytes(order, FRA_ATTR_PRIORITY, pref);
    let c = nla_bytes(order, FRA_ATTR_TABLE, table);
    let none = Seq::<u8>::empty();
    rtmsg_reads_back(order, rule_body(ctx, op), a + b + c);
    assert(data =~= body + (a + b + c));
    let attrs = data.subrange(RTMSG_LEN as int, data.len() as int);
    assert(attrs =~= a + (b + (c + none)));
    assert(nlas(order, attrs) =~= rule_attrs(order, ctx, op) && nlas_error(order, attrs) is None)
        by {
        lemma_three_attrs(order, octets(op.addr), pref, table);
    }
}

/// Three attributes written one after the other are read back.
proof fn lemma_three_attrs(order: ByteOrder, x: Seq<u8>, y: Seq<u8>, z: Seq<u8>)
    requires
        x.len() <= 16,
        y.len() <= 16,
        z.len() <= 16,
    ensures
        ({
            let a = nla_bytes(order, FRA_ATTR_DST, x);
            let b = nla_bytes(order, FRA_ATTR_PRIORITY, y);
            let c = nla_bytes(order, FRA_ATTR_TABLE, z);
            let all = a + (b + (c + Seq::<u8>::empty()));
            &&& nlas(order, all) == seq![
                Nla { typ: FRA_ATTR_DST, value: x },
                Nla { typ: FRA_ATTR_PRIORITY, value: y },
                Nla { typ: FRA_ATTR_TABLE, value: z },
            ]
            &&& nlas_error(order, all) is None
        }),
{
    let none = Seq::<u8>::empty();
    let b = nla_bytes(order, FRA_ATTR_PRIORITY, y);
    let c = nla_bytes(order, FRA_ATTR_TABLE, z);
    nla_reads_back(order, FRA_ATTR_DST, x, b + (c + none));
    nla_reads_back(order, FRA_ATTR_PRIORITY, y, c + none);
    nla_reads_back(order, FRA_ATTR_TABLE, z, none);
    assert(nlas(order, none) =~= Seq::<Nla>::empty());
    assert(seq![Nla { typ: FRA_ATTR_DST, value: x }] + (seq![
        Nla { typ: FRA_ATTR_PRIORITY, value: y },
    ] + (seq![Nla { typ: FRA_ATTR_TABLE, value: z }] + nlas(order, none))) =~= seq![
        Nla { typ: FRA_ATTR_DST, value: x },
        Nla { typ: FRA_ATTR_PRIORITY, value: y },
        Nla { typ: FRA_ATTR_TABLE, value: z },
    ]);
}

} // verus!
