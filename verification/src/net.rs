//! Socket addresses as plain values.
use vstd::prelude::*;

verus! {

/// An IP address; the integer holds the address in network (big-endian) order,
/// as `u32::from(Ipv4Addr)` and `u128::from(Ipv6Addr)` give it.
#[derive(Clone, Copy, Debug, PartialEq, Eq, Structural)]
pub enum IpAddr {
    V4(u32),
    V6(u128),
}

/// A socket address: an IP address and a port.
#[derive(Clone, Copy, Debug, PartialEq, Eq, Structural)]
pub struct SockAddr {
    pub ip: IpAddr,
    pub port: u16,
}

/// The `i`-th byte, most significant first, of a 32-bit value.
pub open spec fn be_byte_u32(x: u32, i: int) -> u8 {
    ((x >> ((24 - 8 * i) as u32)) & 0xff) as u8
}

/// The `i`-th byte, most significant first, of a 128-bit value.
pub open spec fn be_byte_u128(x: u128, i: int) -> u8 {
    ((x >> ((120 - 8 * i) as u128)) & 0xff) as u8
}

/// The octets of an IP address, most significant first.
pub open spec fn ip_octets(ip: IpAddr) -> Seq<u8> {
    match ip {
        IpAddr::V4(x) => Seq::new(4, |i: int| be_byte_u32(x, i)),
        IpAddr::V6(x) => Seq::new(16, |i: int| be_byte_u128(x, i)),
    }
}

impl IpAddr {
    pub open spec fn is_v4(self) -> bool {
        self is V4
    }

    /// The octets of the address, most significant first.
    pub fn octets(&self) -> (out: Vec<u8>)
        ensures
            out@ == ip_octets(*self),
    {
        let mut out: Vec<u8> = Vec::new();
        match *self {
            IpAddr::V4(x) => {
                let mut i: u32 = 0;
                while i < 4
                    invariant
                        i <= 4,
                        out@.len() == i,
                        forall|j: int| 0 <= j < i ==> out@[j] == be_byte_u32(x, j),
                    decreases 4 - i,
                {
                    let b = ((x >> (24 - 8 * i)) & 0xff) as u8;
                    out.push(b);
                    i = i + 1;
                }
                assert(out@ =~= ip_octets(*self));
            },
            IpAddr::V6(x) => {
                let mut i: u32 = 0;
                while i < 16
                    invariant
                        i <= 16,
                        out@.len() == i,
                        forall|j: int| 0 <= j < i ==> out@[j] == be_byte_u128(x, j),
                    decreases 16 - i,
                {
                    let sh: u128 = (120 - 8 * i) as u128;
                    let b = ((x >> sh) & 0xff) as u8;
                    out.push(b);
                    i = i + 1;
                }
                assert(out@ =~= ip_octets(*self));
            },
        }
        out
    }
}

impl SockAddr {
    pub open spec fn is_v4(self) -> bool {
        self.ip is V4
    }

    /// Whether the address belongs to the IPv4 family.
    pub fn is_ipv4(&self) -> (b: bool)
        ensures
            b == self.is_v4(),
    {
        match self.ip {
            IpAddr::V4(_) => true,
            IpAddr::V6(_) => false,
        }
    }

    /// Whether the address belongs to the IPv6 family.
    pub fn is_ipv6(&self) -> (b: bool)
        ensures
            b == !self.is_v4(),
    {
        match self.ip {
            IpAddr::V4(_) => false,
            IpAddr::V6(_) => true,
        }
    }
}

/// Two IPv4 addresses with the same octets are the same address.
pub proof fn lemma_octets_v4_injective(x: u32, y: u32)
    requires
        ip_octets(IpAddr::V4(x)) == ip_octets(IpAddr::V4(y)),
    ensures
        x == y,
{
    let sx = ip_octets(IpAddr::V4(x));
    let sy = ip_octets(IpAddr::V4(y));
    assert(sx[0] == sy[0] && sx[1] == sy[1] && sx[2] == sy[2] && sx[3] == sy[3]);
    assert(((x >> 24u32) & 0xff) as u8 == ((y >> 24u32) & 0xff) as u8
        && ((x >> 16u32) & 0xff) as u8 == ((y >> 16u32) & 0xff) as u8
        && ((x >> 8u32) & 0xff) as u8 == ((y >> 8u32) & 0xff) as u8
        && ((x >> 0u32) & 0xff) as u8 == ((y >> 0u32) & 0xff) as u8 ==> x == y) by (bit_vector);
}

/// Two IPv6 addresses with the same octets are the same address.
pub proof fn lemma_octets_v6_injective(x: u128, y: u128)
    requires
        ip_octets(IpAddr::V6(x)) == ip_octets(IpAddr::V6(y)),
    ensures
        x == y,
{
    let sx = ip_octets(IpAddr::V6(x));
    let sy = ip_octets(IpAddr::V6(y));
    assert forall|i: int| 0 <= i < 16 implies be_byte_u128(x, i) == be_byte_u128(y, i) by {
        assert(sx[i] == sy[i]);
    }
    assert(be_byte_u128(x, 0) == be_byte_u128(y, 0));
    assert(be_byte_u128(x, 1) == be_byte_u128(y, 1));
    assert(be_byte_u128(x, 2) == be_byte_u128(y, 2));
    assert(be_byte_u128(x, 3) == be_byte_u128(y, 3));
    assert(be_byte_u128(x, 4) == be_byte_u128(y, 4));
    assert(be_byte_u128(x, 5) == be_byte_u128(y, 5));
    assert(be_byte_u128(x, 6) == be_byte_u128(y, 6));
    assert(be_byte_u128(x, 7) == be_byte_u128(y, 7));
    assert(be_byte_u128(x, 8) == be_byte_u128(y, 8));
    assert(be_byte_u128(x, 9) == be_byte_u128(y, 9));
    assert(be_byte_u128(x, 10) == be_byte_u128(y, 10));
    assert(be_byte_u128(x, 11) == be_byte_u128(y, 11));
    assert(be_byte_u128(x, 12) == be_byte_u128(y, 12));
    assert(be_byte_u128(x, 13) == be_byte_u128(y, 13));
    assert(be_byte_u128(x, 14) == be_byte_u128(y, 14));
    assert(be_byte_u128(x, 15) == be_byte_u128(y, 15));
    assert((((x >> 120u128) & 0xff) as u8 == ((y >> 120u128) & 0xff) as u8
        && ((x >> 112u128) & 0xff) as u8 == ((y >> 112u128) & 0xff) as u8
        && ((x >> 104u128) & 0xff) as u8 == ((y >> 104u128) & 0xff) as u8
        && ((x >> 96u128) & 0xff) as u8 == ((y >> 96u128) & 0xff) as u8
        && ((x >> 88u128) & 0xff) as u8 == ((y >> 88u128) & 0xff) as u8
        && ((x >> 80u128) & 0xff) as u8 == ((y >> 80u128) & 0xff) as u8
        && ((x >> 72u128) & 0xff) as u8 == ((y >> 72u128) & 0xff) as u8
        && ((x >> 64u128) & 0xff) as u8 == ((y >> 64u128) & 0xff) as u8
        && ((x >> 56u128) & 0xff) as u8 == ((y >> 56u128) & 0xff) as u8
        && ((x >> 48u128) & 0xff) as u8 == ((y >> 48u128) & 0xff) as u8
        && ((x >> 40u128) & 0xff) as u8 == ((y >> 40u128) & 0xff) as u8
        && ((x >> 32u128) & 0xff) as u8 == ((y >> 32u128) & 0xff) as u8
        && ((x >> 24u128) & 0xff) as u8 == ((y >> 24u128) & 0xff) as u8
        && ((x >> 16u128) & 0xff) as u8 == ((y >> 16u128) & 0xff) as u8
        && ((x >> 8u128) & 0xff) as u8 == ((y >> 8u128) & 0xff) as u8
        && ((x >> 0u128) & 0xff) as u8 == ((y >> 0u128) & 0xff) as u8) ==> x == y) by (bit_vector);
}

} // verus!
