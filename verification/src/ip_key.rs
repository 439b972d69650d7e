//! Internet addresses, their texts, and the integers by which they are ordered and found.
use vstd::prelude::*;

verus! {

/// An address as its octets, most significant first.
#[derive(Debug, Clone, Copy, PartialEq, Eq)]
pub enum IpAddr {
    V4([u8; 4]),
    V6([u8; 16]),
}

/// An address as a number. Every IPv4 key comes before every IPv6 key.
#[derive(Debug, Clone, Copy, PartialEq, Eq, Hash, PartialOrd, Ord, Structural)]
pub enum IpKey {
    V4(u32),
    V6(u128),
}

/// The number whose four bytes, most significant first, stand at position `i`.
pub open spec fn be32(s: Seq<u8>, i: int) -> int {
    s[i] * 0x100_0000 + s[i + 1] * 0x1_0000 + s[i + 2] * 0x100 + s[i + 3]
}

/// The number whose sixteen bytes, most significant first, are `s`.
pub open spec fn be128(s: Seq<u8>) -> int {
    be32(s, 0) * 0x1_0000_0000_0000_0000_0000_0000 + be32(s, 4) * 0x1_0000_0000_0000_0000 + be32(
        s,
        8,
    ) * 0x1_0000_0000 + be32(s, 12)
}

/// The octets of an address, most significant first.
pub open spec fn octets(addr: IpAddr) -> Seq<u8> {
    match addr {
        IpAddr::V4(o) => o@,
        IpAddr::V6(o) => o@,
    }
}

/// The octets of the address that a text denotes to `core::net::IpAddr`, most significant first;
/// `None` where it denotes none.
pub uninterp spec fn ip_text_octets(text: Seq<char>) -> Option<Seq<u8>>;

/// `str::parse` into `core::net::IpAddr`: the address that the text denotes, or `None` where it
/// denotes none. Which texts denote which address is left to the name; four octets are an IPv4
/// address, sixteen an IPv6 address.
#[verifier::external_body]
fn ip_from_text(text: &str) -> (r: Option<IpAddr>)
    ensures
        match r {
            Some(addr) => ip_text_octets(text@) == Some(octets(addr)),
            None => ip_text_octets(text@) is None,
        },
{
    match text.parse::<core::net::IpAddr>() {
        Ok(core::net::IpAddr::V4(a)) => Some(IpAddr::V4(a.octets())),
        Ok(core::net::IpAddr::V6(a)) => Some(IpAddr::V6(a.octets())),
        Err(_) => None,
    }
}

/// The address that a text denotes, if any: the one with the octets of the text.
pub open spec fn ip_of_text(text: Seq<char>) -> Option<IpAddr> {
    match ip_text_octets(text) {
        Some(raw) => Some(choose|addr: IpAddr| octets(addr) == raw),
        None => None,
    }
}

/// Two addresses with the same octets are one address.
pub proof fn octets_determine_address(a: IpAddr, b: IpAddr)
    requires
        octets(a) == octets(b),
    ensures
        a == b,
{
    match (a, b) {
        (IpAddr::V4(x), IpAddr::V4(y)) => {
            assert(x =~= y);
        },
        (IpAddr::V6(x), IpAddr::V6(y)) => {
            assert(x =~= y);
        },
        (IpAddr::V4(x), IpAddr::V6(y)) => {
            assert(x@.len() == 4 && y@.len() == 16);
        },
        (IpAddr::V6(x), IpAddr::V4(y)) => {
            assert(x@.len() == 16 && y@.len() == 4);
        },
    }
}

/// The address that a text denotes, if any.
pub fn parse_ip(text: &str) -> (r: Option<IpAddr>)
    ensures
        r == ip_of_text(text@),
        match r {
            Some(addr) => ip_text_octets(text@) == Some(octets(addr)),
            None => ip_text_octets(text@) is None,
        },
{
    let r = ip_from_text(text);
    proof {
        if let Some(addr) = r {
            let chosen = choose|a: IpAddr| octets(a) == octets(addr);
            octets_determine_address(chosen, addr);
        }
    }
    r
}

/// The key of an address.
pub open spec fn key_of(addr: IpAddr) -> IpKey {
    match addr {
        IpAddr::V4(o) => IpKey::V4(be32(o@, 0) as u32),
        IpAddr::V6(o) => IpKey::V6(be128(o@) as u128),
    }
}

/// Whether one key comes before another.
pub open spec fn key_lt(a: IpKey, b: IpKey) -> bool {
    match (a, b) {
        (IpKey::V4(x), IpKey::V4(y)) => x < y,
        (IpKey::V4(_), IpKey::V6(_)) => true,
        (IpKey::V6(_), IpKey::V4(_)) => false,
        (IpKey::V6(x), IpKey::V6(y)) => x < y,
    }
}

/// Four bytes, most significant first, as a number.
pub fn u32_of_octets(b0: u8, b1: u8, b2: u8, b3: u8) -> (r: u32)
    ensures
        r == b0 * 0x100_0000 + b1 * 0x1_0000 + b2 * 0x100 + b3,
{
    (b0 as u32) * 0x100_0000 + (b1 as u32) * 0x1_0000 + (b2 as u32) * 0x100 + (b3 as u32)
}

/// The four bytes of a number, most significant first.
pub fn octets_of_u32(v: u32) -> (r: [u8; 4])
    ensures
        be32(r@, 0) == v,
{
    [
        (v / 0x100_0000) as u8,
        (v / 0x1_0000 % 0x100) as u8,
        (v / 0x100 % 0x100) as u8,
        (v % 0x100) as u8,
    ]
}

/// The four 32-bit words of a number, most significant first.
fn words_of_u128(v: u128) -> (r: (u32, u32, u32, u32))
    ensures
        v == r.0 * 0x1_0000_0000_0000_0000_0000_0000 + r.1 * 0x1_0000_0000_0000_0000 + r.2
            * 0x1_0000_0000 + r.3,
{
    let hi: u128 = v / 0x1_0000_0000_0000_0000;
    let lo: u128 = v % 0x1_0000_0000_0000_0000;
    let w0: u128 = hi / 0x1_0000_0000;
    let w1: u128 = hi % 0x1_0000_0000;
    let w2: u128 = lo / 0x1_0000_0000;
    let w3: u128 = lo % 0x1_0000_0000;
    (w0 as u32, w1 as u32, w2 as u32, w3 as u32)
}

/// Two octet strings of the same number are the same.
proof fn lemma_be32_injective(a: Seq<u8>, b: Seq<u8>, i: int)
    requires
        be32(a, i) == be32(b, i),
    ensures
        a[i] == b[i],
        a[i + 1] == b[i + 1],
        a[i + 2] == b[i + 2],
        a[i + 3] == b[i + 3],
{
}

impl IpKey {
    /// The key of an address.
    pub fn from_ip(addr: IpAddr) -> (r: IpKey)
        ensures
            r == key_of(addr),
    {
        match addr {
            IpAddr::V4(o) => IpKey::V4(u32_of_octets(o[0], o[1], o[2], o[3])),
            IpAddr::V6(o) => {
                let w0: u128 = u32_of_octets(o[0], o[1], o[2], o[3]) as u128;
                let w1: u128 = u32_of_octets(o[4], o[5], o[6], o[7]) as u128;
                let w2: u128 = u32_of_octets(o[8], o[9], o[10], o[11]) as u128;
                let w3: u128 = u32_of_octets(o[12], o[13], o[14], o[15]) as u128;
                IpKey::V6(
                    w0 * 0x1_0000_0000_0000_0000_0000_0000 + w1 * 0x1_0000_0000_0000_0000 + w2
                        * 0x1_0000_0000 + w3,
                )
            },
        }
    }

    /// The address of a key.
    pub fn into_ip(self) -> (r: IpAddr)
        ensures
            key_of(r) == self,
    {
        match self {
            IpKey::V4(raw) => IpAddr::V4(octets_of_u32(raw)),
            IpKey::V6(raw) => {
                let (w0, w1, w2, w3) = words_of_u128(raw);
                let a = octets_of_u32(w0);
                let b = octets_of_u32(w1);
                let c = octets_of_u32(w2);
                let d = octets_of_u32(w3);
                let o: [u8; 16] = [
                    a[0], a[1], a[2], a[3], b[0], b[1], b[2], b[3], c[0], c[1], c[2], c[3], d[0],
                    d[1], d[2], d[3],
                ];
                assert(be32(o@, 0) == w0);
                assert(be32(o@, 4) == w1);
                assert(be32(o@, 8) == w2);
                assert(be32(o@, 12) == w3);
                IpAddr::V6(o)
            },
        }
    }

    /// Whether this key comes before the other.
    pub fn comes_before(self, other: IpKey) -> (r: bool)
        ensures
            r == key_lt(self, other),
    {
        match (self, other) {
            (IpKey::V4(x), IpKey::V4(y)) => x < y,
            (IpKey::V4(_), IpKey::V6(_)) => true,
            (IpKey::V6(_), IpKey::V4(_)) => false,
            (IpKey::V6(x), IpKey::V6(y)) => x < y,
        }
    }
}

/// Two addresses with one key are one address: together with the contracts of `from_ip` and
/// `into_ip`, each of the two conversions undoes the other.
pub proof fn key_determines_address(a: IpAddr, b: IpAddr)
    requires
        key_of(a) == key_of(b),
    ensures
        a == b,
{
    match (a, b) {
        (IpAddr::V4(x), IpAddr::V4(y)) => {
            assert(0 <= be32(x@, 0) <= u32::MAX);
            assert(0 <= be32(y@, 0) <= u32::MAX);
            lemma_be32_injective(x@, y@, 0);
            assert(x =~= y);
        },
        (IpAddr::V6(x), IpAddr::V6(y)) => {
            assert(0 <= be32(x@, 0) <= u32::MAX && 0 <= be32(x@, 4) <= u32::MAX);
            assert(0 <= be32(x@, 8) <= u32::MAX && 0 <= be32(x@, 12) <= u32::MAX);
            assert(0 <= be32(y@, 0) <= u32::MAX && 0 <= be32(y@, 4) <= u32::MAX);
            assert(0 <= be32(y@, 8) <= u32::MAX && 0 <= be32(y@, 12) <= u32::MAX);
            lemma_be32_injective(x@, y@, 0);
            lemma_be32_injective(x@, y@, 4);
            lemma_be32_injective(x@, y@, 8);
            lemma_be32_injective(x@, y@, 12);
            assert(x =~= y);
        },
        _ => {},
    }
}

/// The order of keys is strict and total.
pub proof fn key_order_is_total(a: IpKey, b: IpKey, c: IpKey)
    ensures
        !key_lt(a, a),
        key_lt(a, b) || key_lt(b, a) || a == b,
        key_lt(a, b) && key_lt(b, c) ==> key_lt(a, c),
{
}

} // verus!
