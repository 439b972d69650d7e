//! Framing of netlink messages and attributes, acknowledgements, and sequence numbers.
use crate::bytes::{
    push_u16, push_u32, read_u16, read_u32, signed32, tail, to_signed32, u16_at, u16_bytes,
    u16_reads_back, u32_at, u32_bytes, u32_reads_back, zeros, ByteOrder,
};
use crate::error::{AppError, ErrorView};
use crate::text::{chars_of, find, find_byte, trim_str, trimmed, utf8_text};
use vstd::prelude::*;
use vstd::slice::slice_subrange;
use vstd::utf8::{
    decode_utf8, encode_utf8, encode_utf8_decode_utf8, encode_utf8_valid_utf8, is_ascii_chars,
    is_ascii_chars_encode_utf8, valid_utf8,
};

verus! {

pub const IFA_F_TEMPORARY: u32 = 0x01;
pub const IFA_F_OPTIMISTIC: u32 = 0x04;
pub const IFA_F_DADFAILED: u32 = 0x08;
pub const IFA_F_DEPRECATED: u32 = 0x20;
pub const IFA_F_TENTATIVE: u32 = 0x40;
pub const IFA_F_MANAGETEMPADDR: u32 = 0x100;
pub const IFA_F_STABLE_PRIVACY: u32 = 0x800;

pub const IFA_ATTR_FLAGS: u16 = 8;

pub const FRA_ATTR_DST: u16 = 1;
pub const FRA_ATTR_PRIORITY: u16 = 6;
pub const FRA_ATTR_TABLE: u16 = 15;

pub const NLMSGERR_ATTR_MSG: u16 = 1;
pub const NLMSGERR_ATTR_OFFS: u16 = 2;

/// The longest text of an extended acknowledgement that is kept.
pub const EXT_ACK_TEXT_MAX: usize = 96;

pub const NLA_HEADER_LEN: usize = 4;
pub const NLMSG_HEADER_LEN: usize = 16;

pub const ROUTE_EVENT_BUFFER_SIZE: usize = 65536;
pub const ROUTE_SOCKET_RECV_BUF: i32 = 4194304;

pub const CLEANUP_BATCH_SIZE: usize = 64;

// ---------------------------------------------------------------------------
// Alignment
// ---------------------------------------------------------------------------

/// The least multiple of four that is not below `n`.
pub open spec fn align4(n: int) -> int {
    (n + 3) / 4 * 4
}

/// The length of a message with its padding.
pub fn nlmsg_align(n: usize) -> (r: usize)
    requires
        n + 3 <= usize::MAX,
    ensures
        r == align4(n as int),
{
    (n + 3) / 4 * 4
}

/// The length of an attribute with its padding.
pub fn nla_align(n: usize) -> (r: usize)
    requires
        n + 3 <= usize::MAX,
    ensures
        r == align4(n as int),
{
    (n + 3) / 4 * 4
}

/// The number of bytes that follow `n` bytes up to the next multiple of four.
fn padding(n: usize) -> (r: usize)
    ensures
        r == align4(n as int) - n,
        r < 4,
{
    (4 - n % 4) % 4
}

// ---------------------------------------------------------------------------
// Messages
// ---------------------------------------------------------------------------

/// The header of a netlink message.
#[derive(Debug, Clone, Copy, PartialEq, Eq, Structural)]
pub struct NetlinkHeader {
    pub nlmsg_len: u32,
    pub nlmsg_type: u16,
    pub nlmsg_flags: u16,
    pub nlmsg_seq: u32,
    pub nlmsg_pid: u32,
}

/// A message: its header and the bytes that follow it.
pub struct Message {
    pub header: NetlinkHeader,
    pub data: Seq<u8>,
}

/// A message within a receive buffer.
#[derive(Debug, Clone, Copy)]
pub struct NetlinkMessageView<'a> {
    pub header: NetlinkHeader,
    pub data: &'a [u8],
}

impl<'a> View for NetlinkMessageView<'a> {
    type V = Message;

    open spec fn view(&self) -> Message {
        Message { header: self.header, data: self.data@ }
    }
}

/// The header at the start of a buffer.
pub open spec fn header_at(order: ByteOrder, raw: Seq<u8>) -> NetlinkHeader {
    NetlinkHeader {
        nlmsg_len: u32_at(order, raw, 0),
        nlmsg_type: u16_at(order, raw, 4),
        nlmsg_flags: u16_at(order, raw, 6),
        nlmsg_seq: u32_at(order, raw, 8),
        nlmsg_pid: u32_at(order, raw, 12),
    }
}

/// The sixteen bytes of a header.
pub open spec fn header_bytes(order: ByteOrder, h: NetlinkHeader) -> Seq<u8> {
    u32_bytes(order, h.nlmsg_len) + u16_bytes(order, h.nlmsg_type) + u16_bytes(
        order,
        h.nlmsg_flags,
    ) + u32_bytes(order, h.nlmsg_seq) + u32_bytes(order, h.nlmsg_pid)
}

/// One step of reading a buffer: a message or the reason why there is none.
pub enum Item {
    Message(Message),
    Error(ErrorView),
}

/// What a result of reading stands for.
pub open spec fn item_view(r: Result<NetlinkMessageView<'_>, AppError>) -> Item {
    match r {
        Ok(m) => Item::Message(m@),
        Err(e) => Item::Error(e@),
    }
}

/// The first item of a nonempty buffer, and what is left of the buffer after it. Nothing is
/// left after an error.
pub open spec fn next_item(order: ByteOrder, raw: Seq<u8>) -> (Item, Seq<u8>) {
    let len = u32_at(order, raw, 0) as int;
    if raw.len() < NLMSG_HEADER_LEN {
        (Item::Error(ErrorView::Netlink("short nlmsghdr"@)), Seq::empty())
    } else if len < NLMSG_HEADER_LEN || len > raw.len() {
        (Item::Error(ErrorView::Netlink("invalid nlmsg len"@)), Seq::empty())
    } else if align4(len) > raw.len() {
        (Item::Error(ErrorView::Netlink("invalid nlmsg step"@)), Seq::empty())
    } else {
        (
            Item::Message(
                Message {
                    header: header_at(order, raw),
                    data: raw.subrange(NLMSG_HEADER_LEN as int, len),
                },
            ),
            raw.subrange(align4(len), raw.len() as int),
        )
    }
}

/// Everything that a buffer holds, in order.
pub open spec fn items(order: ByteOrder, raw: Seq<u8>) -> Seq<Item>
    decreases raw.len(),
{
    if raw.len() == 0 {
        Seq::empty()
    } else {
        let (item, rest) = next_item(order, raw);
        seq![item] + items(order, rest)
    }
}

/// The empty end of a buffer.
fn nothing_left(raw: &[u8]) -> (r: &[u8])
    ensures
        r@ == Seq::<u8>::empty(),
{
    slice_subrange(raw, raw.len(), raw.len())
}

/// Reads the messages of a buffer one after the other.
pub struct NetlinkMessageIter<'a> {
    pub order: ByteOrder,
    pub raw: &'a [u8],
}

impl<'a> View for NetlinkMessageIter<'a> {
    type V = Seq<Item>;

    /// The items that are still to come.
    open spec fn view(&self) -> Seq<Item> {
        items(self.order, self.raw@)
    }
}

impl<'a> NetlinkMessageIter<'a> {
    /// A reader at the start of the buffer.
    pub fn new(order: ByteOrder, raw: &'a [u8]) -> (r: Self)
        ensures
            r@ == items(order, raw@),
            r.order == order,
            r.raw == raw,
    {
        NetlinkMessageIter { order, raw }
    }

    /// Reads the next item; `None` at the end of the buffer.
    pub fn next(&mut self) -> (r: Option<Result<NetlinkMessageView<'a>, AppError>>)
        ensures
            final(self).order == old(self).order,
            r is None <==> old(self).raw@.len() == 0,
            r is None ==> final(self).raw@ == old(self).raw@,
            r matches Some(item) ==> (item_view(item), final(self).raw@) == next_item(
                old(self).order,
                old(self).raw@,
            ),
            r matches Some(item) ==> old(self)@ == seq![item_view(item)] + final(self)@,
            r is None ==> old(self)@ == Seq::<Item>::empty(),
    {
        let raw: &'a [u8] = self.raw;
        let n: usize = raw.len();
        if n == 0 {
            return None;
        }
        if n < NLMSG_HEADER_LEN {
            self.raw = nothing_left(raw);
            return Some(Err(AppError::netlink("short nlmsghdr")));
        }
        let header = NetlinkHeader {
            nlmsg_len: read_u32(self.order, raw, 0),
            nlmsg_type: read_u16(self.order, raw, 4),
            nlmsg_flags: read_u16(self.order, raw, 6),
            nlmsg_seq: read_u32(self.order, raw, 8),
            nlmsg_pid: read_u32(self.order, raw, 12),
        };
        let len: u64 = header.nlmsg_len as u64;
        if len < NLMSG_HEADER_LEN as u64 || len > n as u64 {
            self.raw = nothing_left(raw);
            return Some(Err(AppError::netlink("invalid nlmsg len")));
        }
        let len: usize = len as usize;
        let data = slice_subrange(raw, NLMSG_HEADER_LEN, len);
        let pad: usize = padding(len);
        if pad > n - len {
            self.raw = nothing_left(raw);
            return Some(Err(AppError::netlink("invalid nlmsg step")));
        }
        self.raw = slice_subrange(raw, len + pad, n);
        Some(Ok(NetlinkMessageView { header, data }))
    }
}

// ---------------------------------------------------------------------------
// Attributes
// ---------------------------------------------------------------------------

/// An attribute: its type and its payload.
pub struct Nla {
    pub typ: u16,
    pub value: Seq<u8>,
}

/// An attribute within a message.
#[derive(Debug, Clone, Copy)]
pub struct NlaView<'a> {
    pub typ: u16,
    pub value: &'a [u8],
}

impl<'a> View for NlaView<'a> {
    type V = Nla;

    open spec fn view(&self) -> Nla {
        Nla { typ: self.typ, value: self.value@ }
    }
}

/// The attributes that stand in `raw` before its end or before the first error.
pub open spec fn nlas(order: ByteOrder, raw: Seq<u8>) -> Seq<Nla>
    decreases raw.len(),
{
    if raw.len() < NLA_HEADER_LEN {
        Seq::empty()
    } else {
        let len = u16_at(order, raw, 0) as int;
        if len < NLA_HEADER_LEN || len > raw.len() {
            Seq::empty()
        } else {
            let first = Nla {
                typ: u16_at(order, raw, 2),
                value: raw.subrange(NLA_HEADER_LEN as int, len),
            };
            if align4(len) > raw.len() {
                seq![first]
            } else {
                seq![first] + nlas(order, raw.subrange(align4(len), raw.len() as int))
            }
        }
    }
}

/// The error that reading the attributes in `raw` ends with, if any.
pub open spec fn nlas_error(order: ByteOrder, raw: Seq<u8>) -> Option<ErrorView>
    decreases raw.len(),
{
    if raw.len() == 0 {
        None
    } else if raw.len() < NLA_HEADER_LEN {
        Some(ErrorView::Netlink("unexpected trailing nla bytes"@))
    } else {
        let len = u16_at(order, raw, 0) as int;
        if len < NLA_HEADER_LEN || len > raw.len() {
            Some(ErrorView::Netlink("invalid nla len"@))
        } else if align4(len) > raw.len() {
            Some(ErrorView::Netlink("invalid nla step"@))
        } else {
            nlas_error(order, raw.subrange(align4(len), raw.len() as int))
        }
    }
}

/// The attributes of a message and the error that reading them ended with.
pub struct NlaList<'a> {
    pub attrs: Vec<NlaView<'a>>,
    pub error: Option<AppError>,
}

/// The views of a sequence of attributes.
pub open spec fn nla_views(s: Seq<NlaView<'_>>) -> Seq<Nla> {
    Seq::new(s.len(), |i: int| s[i]@)
}

/// The view of an optional error.
pub open spec fn error_view(e: Option<AppError>) -> Option<ErrorView> {
    match e {
        Some(e) => Some(e@),
        None => None,
    }
}

/// Reads the attributes in `raw`. Those before an error are kept.
pub fn parse_nlas<'a>(order: ByteOrder, raw: &'a [u8]) -> (r: NlaList<'a>)
    ensures
        nla_views(r.attrs@) == nlas(order, raw@),
        error_view(r.error) == nlas_error(order, raw@),
{
    let mut attrs: Vec<NlaView<'a>> = Vec::new();
    let mut rest: &'a [u8] = raw;
    assert(nla_views(attrs@) + nlas(order, raw@) =~= nlas(order, raw@));
    while rest.len() >= NLA_HEADER_LEN
        invariant
            nlas(order, raw@) == nla_views(attrs@) + nlas(order, rest@),
            nlas_error(order, raw@) == nlas_error(order, rest@),
        decreases rest.len(),
    {
        let n: usize = rest.len();
        let len: usize = read_u16(order, rest, 0) as usize;
        let typ: u16 = read_u16(order, rest, 2);
        if len < NLA_HEADER_LEN || len > n {
            let error = Some(AppError::netlink("invalid nla len"));
            assert(nla_views(attrs@) + nlas(order, rest@) =~= nla_views(attrs@));
            return NlaList { attrs, error };
        }
        let value = slice_subrange(rest, NLA_HEADER_LEN, len);
        let ghost before = attrs@;
        let first = NlaView { typ, value };
        attrs.push(first);
        assert(nla_views(attrs@) =~= nla_views(before) + seq![first@]);
        let pad: usize = padding(len);
        if pad > n - len {
            let error = Some(AppError::netlink("invalid nla step"));
            return NlaList { attrs, error };
        }
        let ghost next = rest@.subrange(align4(len as int), n as int);
        assert(nla_views(before) + (seq![first@] + nlas(order, next)) =~= nla_views(attrs@) + nlas(
            order,
            next,
        ));
        rest = slice_subrange(rest, len + pad, n);
    }
    assert(nla_views(attrs@) + nlas(order, rest@) =~= nla_views(attrs@));
    if rest.len() != 0 {
        let error = Some(AppError::netlink("unexpected trailing nla bytes"));
        return NlaList { attrs, error };
    }
    NlaList { attrs, error: None }
}

/// The bytes of an attribute: length, type, payload, and zeros up to the next multiple of four.
/// The length field holds sixteen bits.
pub open spec fn nla_bytes(order: ByteOrder, typ: u16, payload: Seq<u8>) -> Seq<u8> {
    let len = NLA_HEADER_LEN + payload.len();
    u16_bytes(order, (len % 0x1_0000) as u16) + u16_bytes(order, typ) + payload + zeros(
        (align4(len) - len) as nat,
    )
}

/// Appends `n` zero bytes.
pub fn append_zeros(dst: &mut Vec<u8>, n: usize)
    ensures
        final(dst)@ == old(dst)@ + zeros(n as nat),
{
    assert(dst@ =~= old(dst)@ + zeros(0));
    for i in 0..n
        invariant
            dst@ == old(dst)@ + zeros(i as nat),
    {
        dst.push(0);
        assert(dst@ =~= old(dst)@ + zeros((i + 1) as nat));
    }
}

/// Appends an attribute.
pub fn append_nla(order: ByteOrder, dst: &mut Vec<u8>, typ: u16, payload: &[u8])
    ensures
        final(dst)@ == old(dst)@ + nla_bytes(order, typ, payload@),
{
    let len: usize = (NLA_HEADER_LEN + payload.len() % 0x1_0000) % 0x1_0000;
    let pad: usize = padding(payload.len());
    assert(len == (NLA_HEADER_LEN + payload@.len()) % 0x1_0000);
    push_u16(order, dst, len as u16);
    push_u16(order, dst, typ);
    dst.extend_from_slice(payload);
    append_zeros(dst, pad);
    assert(dst@ =~= old(dst)@ + nla_bytes(order, typ, payload@));
}

/// Appends an attribute that holds a number.
pub fn append_nla_u32(order: ByteOrder, dst: &mut Vec<u8>, typ: u16, value: u32)
    ensures
        final(dst)@ == old(dst)@ + nla_bytes(order, typ, u32_bytes(order, value)),
{
    let mut payload: Vec<u8> = Vec::new();
    push_u32(order, &mut payload, value);
    assert(payload@ =~= u32_bytes(order, value));
    append_nla(order, dst, typ, payload.as_slice());
}

/// An attribute that fits its length field is read back as it was written, and reading goes on
/// with what follows it.
pub proof fn nla_reads_back(order: ByteOrder, typ: u16, payload: Seq<u8>, rest: Seq<u8>)
    requires
        payload.len() + NLA_HEADER_LEN <= u16::MAX,
    ensures
        nlas(order, nla_bytes(order, typ, payload) + rest) == seq![Nla { typ, value: payload }]
            + nlas(order, rest),
        nlas_error(order, nla_bytes(order, typ, payload) + rest) == nlas_error(order, rest),
{
    let len = (NLA_HEADER_LEN + payload.len()) as int;
    let pad = zeros((align4(len) - len) as nat);
    let raw = nla_bytes(order, typ, payload) + rest;
    let l = u16_bytes(order, len as u16);
    let t = u16_bytes(order, typ);
    assert(raw =~= Seq::<u8>::empty() + l + (t + payload + pad + rest));
    u16_reads_back(order, len as u16, Seq::empty(), t + payload + pad + rest);
    assert(raw =~= l + t + (payload + pad + rest));
    u16_reads_back(order, typ, l, payload + pad + rest);
    assert(raw.subrange(NLA_HEADER_LEN as int, len) =~= payload);
    assert(raw.subrange(align4(len), raw.len() as int) =~= rest);
}

/// An attribute that is appended to a buffer leaves what was there, takes up its length rounded
/// up to a multiple of four, ends in zeros, and is the one attribute that is read from where the
/// buffer ended.
pub proof fn appended_nla_reads_back(order: ByteOrder, dst: Seq<u8>, typ: u16, payload: Seq<u8>)
    requires
        payload.len() + NLA_HEADER_LEN <= u16::MAX,
    ensures
        ({
            let out = dst + nla_bytes(order, typ, payload);
            let end = dst.len() + NLA_HEADER_LEN + payload.len();
            &&& out.take(dst.len() as int) == dst
            &&& out.len() == dst.len() + align4(NLA_HEADER_LEN + payload.len())
            &&& forall|i: int| end <= i < out.len() ==> out[i] == 0
            &&& nlas(order, out.skip(dst.len() as int)) == seq![Nla { typ, value: payload }]
            &&& nlas_error(order, out.skip(dst.len() as int)) is None
        }),
{
    let none = Seq::<u8>::empty();
    let one = nla_bytes(order, typ, payload);
    let out = dst + one;
    assert(out.take(dst.len() as int) =~= dst);
    assert(out.skip(dst.len() as int) =~= one + none);
    nla_reads_back(order, typ, payload, none);
    assert(nlas(order, none) =~= Seq::<Nla>::empty());
    assert(seq![Nla { typ, value: payload }] + Seq::<Nla>::empty() =~= seq![
        Nla { typ, value: payload },
    ]);
}

// ---------------------------------------------------------------------------
// Requests
// ---------------------------------------------------------------------------

/// The bytes of a request: header, body, and zeros up to the next multiple of four.
pub open spec fn request_bytes(
    order: ByteOrder,
    nlmsg_type: u16,
    nlmsg_flags: u16,
    seq: u32,
    body: Seq<u8>,
) -> Seq<u8> {
    let total = NLMSG_HEADER_LEN + body.len();
    header_bytes(
        order,
        NetlinkHeader {
            nlmsg_len: (total % 0x1_0000_0000) as u32,
            nlmsg_type,
            nlmsg_flags,
            nlmsg_seq: seq,
            nlmsg_pid: 0,
        },
    ) + body + zeros((align4(total) - total) as nat)
}

/// Appends the sixteen bytes of a header.
pub fn push_header(order: ByteOrder, out: &mut Vec<u8>, h: NetlinkHeader)
    ensures
        final(out)@ == old(out)@ + header_bytes(order, h),
{
    push_u32(order, out, h.nlmsg_len);
    push_u16(order, out, h.nlmsg_type);
    push_u16(order, out, h.nlmsg_flags);
    push_u32(order, out, h.nlmsg_seq);
    push_u32(order, out, h.nlmsg_pid);
    assert(out@ =~= old(out)@ + header_bytes(order, h));
}

/// Builds a request around a body.
pub fn build_netlink_request(
    order: ByteOrder,
    nlmsg_type: u16,
    nlmsg_flags: u16,
    seq: u32,
    body: &[u8],
) -> (r: Vec<u8>)
    requires
        body@.len() + 19 <= usize::MAX,
    ensures
        r@ == request_bytes(order, nlmsg_type, nlmsg_flags, seq, body@),
{
    let total: usize = NLMSG_HEADER_LEN + body.len();
    let nlmsg_len: u32 = (total as u64 % 0x1_0000_0000) as u32;
    let mut msg: Vec<u8> = Vec::with_capacity(total);
    push_header(
        order,
        &mut msg,
        NetlinkHeader { nlmsg_len, nlmsg_type, nlmsg_flags, nlmsg_seq: seq, nlmsg_pid: 0 },
    );
    msg.extend_from_slice(body);
    append_zeros(&mut msg, padding(total));
    assert(msg@ =~= request_bytes(order, nlmsg_type, nlmsg_flags, seq, body@));
    msg
}

/// A header is read back as it was written.
pub proof fn header_reads_back(order: ByteOrder, h: NetlinkHeader, rest: Seq<u8>)
    ensures
        header_bytes(order, h).len() == NLMSG_HEADER_LEN,
        header_at(order, header_bytes(order, h) + rest) == h,
{
    let raw = header_bytes(order, h) + rest;
    let a = u32_bytes(order, h.nlmsg_len);
    let b = u16_bytes(order, h.nlmsg_type);
    let c = u16_bytes(order, h.nlmsg_flags);
    let d = u32_bytes(order, h.nlmsg_seq);
    let e = u32_bytes(order, h.nlmsg_pid);
    assert(raw =~= Seq::<u8>::empty() + a + (b + c + d + e + rest));
    u32_reads_back(order, h.nlmsg_len, Seq::empty(), b + c + d + e + rest);
    assert(raw =~= a + b + (c + d + e + rest));
    u16_reads_back(order, h.nlmsg_type, a, c + d + e + rest);
    assert(raw =~= (a + b) + c + (d + e + rest));
    u16_reads_back(order, h.nlmsg_flags, a + b, d + e + rest);
    assert(raw =~= (a + b + c) + d + (e + rest));
    u32_reads_back(order, h.nlmsg_seq, a + b + c, e + rest);
    assert(raw =~= (a + b + c + d) + e + rest);
    u32_reads_back(order, h.nlmsg_pid, a + b + c + d, rest);
}

/// A request that fits its length field is read back as one message with the type, flags,
/// sequence number and body that it was built from.
pub proof fn request_reads_back(
    order: ByteOrder,
    nlmsg_type: u16,
    nlmsg_flags: u16,
    seq: u32,
    body: Seq<u8>,
)
    requires
        body.len() + NLMSG_HEADER_LEN <= u32::MAX,
    ensures
        items(order, request_bytes(order, nlmsg_type, nlmsg_flags, seq, body)) == seq![
            Item::Message(
                Message {
                    header: NetlinkHeader {
                        nlmsg_len: (NLMSG_HEADER_LEN + body.len()) as u32,
                        nlmsg_type,
                        nlmsg_flags,
                        nlmsg_seq: seq,
                        nlmsg_pid: 0,
                    },
                    data: body,
                },
            ),
        ],
{
    let total = (NLMSG_HEADER_LEN + body.len()) as int;
    let h = NetlinkHeader {
        nlmsg_len: total as u32,
        nlmsg_type,
        nlmsg_flags,
        nlmsg_seq: seq,
        nlmsg_pid: 0,
    };
    let pad = zeros((align4(total) - total) as nat);
    let raw = request_bytes(order, nlmsg_type, nlmsg_flags, seq, body);
    assert(raw =~= header_bytes(order, h) + (body + pad));
    header_reads_back(order, h, body + pad);
    assert(raw.subrange(NLMSG_HEADER_LEN as int, total) =~= body);
    let rest = raw.subrange(align4(total), raw.len() as int);
    assert(rest =~= Seq::<u8>::empty());
    assert(items(order, rest) =~= Seq::<Item>::empty());
    assert(seq![next_item(order, raw).0] + items(order, rest) =~= seq![next_item(order, raw).0]);
}

// ---------------------------------------------------------------------------
// Acknowledgements
// ---------------------------------------------------------------------------

/// The text of an extended acknowledgement: at most `EXT_ACK_TEXT_MAX` ASCII characters.
#[derive(Debug, Clone, Copy, PartialEq, Eq)]
pub struct ExtAckText {
    len: u8,
    bytes: [u8; 96],
}

impl View for ExtAckText {
    type V = Seq<char>;

    closed spec fn view(&self) -> Seq<char> {
        Seq::new(self.len as nat, |i: int| self.bytes@[i] as char)
    }
}

/// What is kept of a text: nothing where it is blank or not ASCII, else its first characters
/// without the white space around it.
pub open spec fn ext_text(s: Seq<char>) -> Option<Seq<char>> {
    let t = trimmed(s);
    if t.len() == 0 || !is_ascii_chars(t) {
        None
    } else if t.len() > EXT_ACK_TEXT_MAX {
        Some(t.subrange(0, EXT_ACK_TEXT_MAX as int))
    } else {
        Some(t)
    }
}

/// The view of an optional text.
pub open spec fn text_view(t: Option<ExtAckText>) -> Option<Seq<char>> {
    match t {
        Some(t) => Some(t@),
        None => None,
    }
}

impl ExtAckText {
    /// Every text is ASCII and within the limit.
    #[verifier::type_invariant]
    spec fn wf(&self) -> bool {
        &&& self.len <= EXT_ACK_TEXT_MAX
        &&& forall|i: int| 0 <= i < self.len ==> self.bytes@[i] < 0x80
    }

    /// Keeps the text where it is ASCII and not blank.
    pub fn from_str(value: &str) -> (r: Option<Self>)
        ensures
            text_view(r) == ext_text(value@),
    {
        let trimmed_value = trim_str(value);
        let chars = chars_of(trimmed_value);
        if chars.len() == 0 {
            return None;
        }
        if !trimmed_value.is_ascii() {
            return None;
        }
        let take: usize = if chars.len() < EXT_ACK_TEXT_MAX {
            chars.len()
        } else {
            EXT_ACK_TEXT_MAX
        };
        let mut bytes: [u8; 96] = [0; 96];
        for i in 0..take
            invariant
                take <= 96,
                take <= chars@.len(),
                is_ascii_chars(chars@),
                bytes@.len() == 96,
                forall|j: int|
                    0 <= j < i ==> #[trigger] bytes@[j] as char == chars@[j] && bytes@[j] < 0x80,
        {
            let c: char = chars[i];
            assert(c as nat <= 127);
            bytes[i] = c as u8;
            assert(bytes@[i as int] == c as u8);
            assert(bytes@[i as int] as char == c);
        }
        let text = ExtAckText { len: take as u8, bytes };
        assert(text@ =~= chars@.subrange(0, take as int));
        assert(take == chars@.len() ==> chars@.subrange(0, take as int) =~= chars@);
        Some(text)
    }

    /// The text.
    pub fn as_str(&self) -> (r: &str)
        ensures
            r@ == self@,
    {
        proof {
            use_type_invariant(self);
            let chars = self@;
            assert(is_ascii_chars(chars));
            is_ascii_chars_encode_utf8(chars);
            encode_utf8_valid_utf8(chars);
            encode_utf8_decode_utf8(chars);
            assert(self.bytes@.subrange(0, self.len as int) =~= encode_utf8(chars));
        }
        let kept = slice_subrange(self.bytes.as_slice(), 0, self.len as usize);
        match utf8_text(kept) {
            Some(text) => text,
            None => "",
        }
    }
}

/// A refusal by the kernel: the error number, and what the extended acknowledgement says of it.
#[derive(Debug, Clone, Copy, PartialEq, Eq)]
pub struct AckErrorInfo {
    pub errno: i32,
    pub ext_msg: Option<ExtAckText>,
    pub ext_offset: Option<u32>,
}

/// An `AckErrorInfo` with its text as characters.
pub struct AckError {
    pub errno: i32,
    pub ext_msg: Option<Seq<char>>,
    pub ext_offset: Option<u32>,
}

impl View for AckErrorInfo {
    type V = AckError;

    open spec fn view(&self) -> AckError {
        AckError {
            errno: self.errno,
            ext_msg: text_view(self.ext_msg),
            ext_offset: self.ext_offset,
        }
    }
}

/// The error number of an acknowledgement, which carries it negated; `None` for success. The
/// least number has no negative and stays.
pub open spec fn ack_errno(order: ByteOrder, data: Seq<u8>) -> Option<i32> {
    let code = signed32(u32_at(order, data, 0));
    if code == 0 {
        None
    } else if code == i32::MIN {
        Some(code)
    } else {
        Some((-code) as i32)
    }
}

/// Reads the error number of an acknowledgement.
pub fn parse_ack_errno(order: ByteOrder, data: &[u8]) -> (r: Result<Option<i32>, AppError>)
    ensures
        r is Ok <==> data@.len() >= 4,
        r matches Ok(errno) ==> errno == ack_errno(order, data@),
        r matches Err(e) ==> e@ == ErrorView::Netlink("short nlmsg error"@),
{
    if data.len() < 4 {
        return Err(AppError::netlink("short nlmsg error"));
    }
    let code: i32 = to_signed32(read_u32(order, data, 0));
    if code == 0 {
        return Ok(None);
    }
    if code == i32::MIN {
        return Ok(Some(code));
    }
    Ok(Some(-code))
}

/// The text that one attribute of an acknowledgement gives, if any: what stands before the
/// first zero byte.
pub open spec fn nla_text(a: Nla) -> Option<Seq<char>> {
    let bytes = a.value.subrange(0, find(a.value, 0u8));
    if a.typ == NLMSGERR_ATTR_MSG && valid_utf8(bytes) {
        ext_text(decode_utf8(bytes))
    } else {
        None
    }
}

/// The offset that one attribute of an acknowledgement gives, if any.
pub open spec fn nla_offset(order: ByteOrder, a: Nla) -> Option<u32> {
    if a.typ == NLMSGERR_ATTR_OFFS && a.value.len() >= 4 {
        Some(u32_at(order, a.value, 0))
    } else {
        None
    }
}

/// The text that the last of the attributes with one gives.
pub open spec fn last_text(attrs: Seq<Nla>) -> Option<Seq<char>>
    decreases attrs.len(),
{
    if attrs.len() == 0 {
        None
    } else if nla_text(attrs.last()) is Some {
        nla_text(attrs.last())
    } else {
        last_text(attrs.drop_last())
    }
}

/// The offset that the last of the attributes with one gives.
pub open spec fn last_offset(order: ByteOrder, attrs: Seq<Nla>) -> Option<u32>
    decreases attrs.len(),
{
    if attrs.len() == 0 {
        None
    } else if nla_offset(order, attrs.last()) is Some {
        nla_offset(order, attrs.last())
    } else {
        last_offset(order, attrs.drop_last())
    }
}

/// The attributes of an acknowledgement: they follow the error number and the header of the
/// refused request.
pub open spec fn ack_attrs(order: ByteOrder, data: Seq<u8>) -> Seq<Nla> {
    if data.len() >= 20 {
        nlas(order, data.subrange(20, data.len() as int))
    } else {
        Seq::empty()
    }
}

/// What an acknowledgement says; `None` for success.
pub open spec fn ack_error(order: ByteOrder, data: Seq<u8>) -> Option<AckError> {
    match ack_errno(order, data) {
        None => None,
        Some(errno) => Some(
            AckError {
                errno,
                ext_msg: last_text(ack_attrs(order, data)),
                ext_offset: last_offset(order, ack_attrs(order, data)),
            },
        ),
    }
}

/// The view of an optional refusal.
pub open spec fn ack_view(a: Option<AckErrorInfo>) -> Option<AckError> {
    match a {
        Some(a) => Some(a@),
        None => None,
    }
}

/// Reads one attribute of an acknowledgement as a text.
fn read_nla_text(a: NlaView<'_>) -> (r: Option<ExtAckText>)
    ensures
        text_view(r) == nla_text(a@),
{
    if a.typ != NLMSGERR_ATTR_MSG {
        return None;
    }
    let end: usize = find_byte(a.value, 0);
    match utf8_text(slice_subrange(a.value, 0, end)) {
        Some(text) => ExtAckText::from_str(text),
        None => None,
    }
}

/// Reads an acknowledgement: `None` for success, else the error with what the kernel says of
/// it. Malformed attributes are left aside.
pub fn parse_ack_error_info(order: ByteOrder, data: &[u8]) -> (r: Result<
    Option<AckErrorInfo>,
    AppError,
>)
    ensures
        r is Ok <==> data@.len() >= 4,
        r matches Ok(info) ==> ack_view(info) == ack_error(order, data@),
        r matches Err(e) ==> e@ == ErrorView::Netlink("short nlmsg error"@),
{
    let errno = match parse_ack_errno(order, data) {
        Err(e) => return Err(e),
        Ok(None) => return Ok(None),
        Ok(Some(errno)) => errno,
    };
    let mut ext_msg: Option<ExtAckText> = None;
    let mut ext_offset: Option<u32> = None;
    let list = parse_nlas(order, tail(data, 20));
    let attrs = list.attrs;
    let ghost all = nla_views(attrs@);
    proof {
        assert(all =~= ack_attrs(order, data@)) by {
            if data@.len() < 20 {
                assert(nlas(order, Seq::<u8>::empty()) =~= Seq::<Nla>::empty());
            }
        }
        assert(all.subrange(0, 0) =~= Seq::<Nla>::empty());
    }
    for i in 0..attrs.len()
        invariant
            all == nla_views(attrs@),
            text_view(ext_msg) == last_text(all.subrange(0, i as int)),
            ext_offset == last_offset(order, all.subrange(0, i as int)),
    {
        let a = attrs[i];
        proof {
            let upto = all.subrange(0, i + 1);
            assert(upto.drop_last() =~= all.subrange(0, i as int));
            assert(upto.last() == a@);
        }
        if let Some(text) = read_nla_text(a) {
            ext_msg = Some(text);
        }
        if a.typ == NLMSGERR_ATTR_OFFS && a.value.len() >= 4 {
            ext_offset = Some(read_u32(order, a.value, 0));
        }
    }
    assert(all.subrange(0, attrs@.len() as int) =~= all);
    Ok(Some(AckErrorInfo { errno, ext_msg, ext_offset }))
}

// ---------------------------------------------------------------------------
// Sequence numbers
// ---------------------------------------------------------------------------

/// The number of sequence numbers: zero is not one of them.
pub const SEQ_SPAN: u64 = 0xFFFF_FFFF;

/// Zero stands for one.
pub open spec fn seq_norm(value: u32) -> int {
    if value == 0 {
        1
    } else {
        value as int
    }
}

/// The sequence number `steps` after `start`, going from the greatest back to one.
pub open spec fn seq_after(start: u32, steps: int) -> int {
    (seq_norm(start) - 1 + steps) % (SEQ_SPAN as int) + 1
}

/// How many steps lead from `first` to `seq`.
pub open spec fn seq_distance(seq: u32, first: u32) -> int {
    (seq_norm(seq) - seq_norm(first)) % (SEQ_SPAN as int)
}

/// Zero stands for one.
pub fn normalize_seq(value: u32) -> (r: u32)
    ensures
        r == seq_norm(value),
{
    if value == 0 {
        1
    } else {
        value
    }
}

/// The sequence number that many steps after `start`.
pub fn seq_advance(start: u32, steps: usize) -> (r: u32)
    ensures
        r == seq_after(start, steps as int),
        r != 0,
{
    let start_value: u64 = normalize_seq(start) as u64;
    let offset: u64 = (steps as u64) % SEQ_SPAN;
    (((start_value - 1 + offset) % SEQ_SPAN) + 1) as u32
}

/// The sequence number of the message at `offset` in a batch.
pub fn seq_with_offset(first_seq: u32, offset: usize) -> (r: u32)
    ensures
        r == seq_after(first_seq, offset as int),
        r != 0,
{
    seq_advance(normalize_seq(first_seq), offset)
}

/// The place in a batch of the message with a sequence number.
pub open spec fn batch_index(seq: u32, first_seq: u32, batch_len: int) -> Option<int> {
    if seq != 0 && seq_distance(seq, first_seq) < batch_len {
        Some(seq_distance(seq, first_seq))
    } else {
        None
    }
}

/// Finds the place in a batch of the message with a sequence number; `None` where the number is
/// not one of the batch.
pub fn seq_to_batch_index(seq: u32, first_seq: u32, batch_len: usize) -> (r: Option<usize>)
    ensures
        match r {
            Some(i) => batch_index(seq, first_seq, batch_len as int) == Some(i as int),
            None => batch_index(seq, first_seq, batch_len as int) is None,
        },
{
    if batch_len == 0 {
        return None;
    }
    if seq == 0 {
        return None;
    }
    let start: u64 = normalize_seq(first_seq) as u64;
    let current: u64 = normalize_seq(seq) as u64;
    let delta: u64 = if current >= start {
        current - start
    } else {
        SEQ_SPAN - (start - current)
    };
    if delta < batch_len as u64 {
        Some(delta as usize)
    } else {
        None
    }
}

/// Takes as many sequence numbers from the counter as asked for, at least one, and returns the
/// first of them.
pub fn reserve_seq_block(next: &mut u32, count: usize) -> (r: u32)
    ensures
        r == seq_norm(*old(next)),
        *final(next) == seq_after(*old(next), if count == 0 {
            1
        } else {
            count as int
        }),
{
    let steps: usize = if count == 0 {
        1
    } else {
        count
    };
    let current: u32 = normalize_seq(*next);
    *next = seq_advance(current, steps);
    current
}

/// Takes one sequence number from the counter.
pub fn next_seq(next: &mut u32) -> (r: u32)
    ensures
        r == seq_norm(*old(next)),
        *final(next) == seq_after(*old(next), 1),
{
    reserve_seq_block(next, 1)
}

/// The sequence number at a place in a batch leads back to that place: numbers within a batch
/// are nonzero and no two are alike.
pub proof fn batch_index_inverts_offset(first_seq: u32, offset: int, batch_len: int)
    requires
        0 <= offset < batch_len <= SEQ_SPAN,
    ensures
        1 <= seq_after(first_seq, offset) <= u32::MAX,
        batch_index(seq_after(first_seq, offset) as u32, first_seq, batch_len) == Some(offset),
{
}

/// The numbers of two blocks taken one after the other do not meet, as long as the two together
/// do not go once round.
pub proof fn reserved_blocks_are_disjoint(start: u32, count: int, i: int, later: int)
    requires
        1 <= count,
        0 <= i < count,
        0 <= later,
        count + later < SEQ_SPAN,
    ensures
        seq_after(seq_after(start, count) as u32, later) == seq_after(start, count + later),
        seq_after(start, i) != seq_after(seq_after(start, count) as u32, later),
{
    let m = SEQ_SPAN as int;
    let a = seq_norm(start) - 1;
    vstd::arithmetic::div_mod::lemma_add_mod_noop(a + count, later, m);
    vstd::arithmetic::div_mod::lemma_small_mod(later as nat, m as nat);
    assert((a + count + later) % m == ((a + count) % m + later) % m);
}

} // verus!
