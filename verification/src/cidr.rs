//! Network prefixes and CIDR containment.

use vstd::prelude::*;

verus! {

/// The network mask of a prefix length: the top `prefix_len` bits set.
pub open spec fn netmask(prefix_len: u8) -> u32 {
    if prefix_len == 0 {
        0u32
    } else {
        0xffff_ffffu32 << ((32 - prefix_len) as u32)
    }
}

/// The host mask of a prefix length: the low `32 - prefix_len` bits set.
pub open spec fn hostmask(prefix_len: u8) -> u32 {
    if prefix_len >= 32 {
        0u32
    } else {
        0xffff_ffffu32 >> (prefix_len as u32)
    }
}

/// Whether `to` lies between the network address and the broadcast address
/// of the prefix `addr/prefix_len`, both included.
pub open spec fn in_range(addr: u32, prefix_len: u8, to: u32) -> bool {
    (addr & netmask(prefix_len)) <= to && to <= (addr | hostmask(prefix_len))
}

/// Whether `to` agrees with `addr` on the top `prefix_len` bits.
pub open spec fn same_network(addr: u32, prefix_len: u8, to: u32) -> bool {
    (to & netmask(prefix_len)) == (addr & netmask(prefix_len))
}

/// Lying in the address range of a prefix is the same as agreeing with it
/// on the masked bits, whatever host bits the prefix's own address carries.
pub proof fn lemma_in_range_is_same_network(addr: u32, prefix_len: u8, to: u32)
    requires
        prefix_len <= 32,
    ensures
        in_range(addr, prefix_len, to) == same_network(addr, prefix_len, to),
{
    let m = netmask(prefix_len);
    let h = hostmask(prefix_len);
    assert(h == !m) by (bit_vector)
        requires
            prefix_len <= 32,
            m == (if prefix_len == 0 { 0u32 } else { 0xffff_ffffu32 << ((32 - prefix_len) as u32) }),
            h == (if prefix_len >= 32 { 0u32 } else { 0xffff_ffffu32 >> (prefix_len as u32) }),
    ;
    assert(((addr & m) <= to && to <= (addr | h)) == ((to & m) == (addr & m))) by (bit_vector)
        requires
            prefix_len <= 32,
            m == (if prefix_len == 0 { 0u32 } else { 0xffff_ffffu32 << ((32 - prefix_len) as u32) }),
            h == !m,
    ;
}

/// A prefix of length 0 contains every address, and one of length 32 its
/// own address only.
pub proof fn lemma_same_network_extremes(addr: u32, to: u32)
    ensures
        same_network(addr, 0, to),
        same_network(addr, 32, to) <==> to == addr,
{
    assert(to & 0u32 == addr & 0u32) by (bit_vector);
    assert((to & (0xffff_ffffu32 << 0u32) == addr & (0xffff_ffffu32 << 0u32)) <==> to == addr)
        by (bit_vector);
}

/// An IPv4 network prefix: an address and a prefix length of at most 32.
///
/// The address may carry bits beyond the prefix length; containment masks
/// them away. Two prefixes are equal when both fields are.
#[derive(Copy, Clone, Debug, PartialEq, Eq, Structural)]
pub struct Cidr {
    addr: u32,
    prefix_len: u8,
}

impl Cidr {
    #[verifier::type_invariant]
    spec fn valid(self) -> bool {
        self.prefix_len <= 32
    }

    /// The address as given, unmasked.
    pub closed spec fn spec_addr(&self) -> u32 {
        self.addr
    }

    /// The prefix length.
    pub closed spec fn spec_prefix_len(&self) -> u8 {
        self.prefix_len
    }

    /// Whether the prefix's network contains the address `to`.
    pub open spec fn covers(self, to: u32) -> bool {
        same_network(self.spec_addr(), self.spec_prefix_len(), to)
    }

    /// Two prefixes are equal exactly when both fields are: a /24 and a /25
    /// on one address are different networks.
    pub proof fn lemma_equal_by_fields(self, other: Cidr)
        ensures
            self == other <==> self.addr() == other.addr() && self.prefix_len()
                == other.prefix_len(),
    {
    }

    /// A prefix from its two fields; `None` when `prefix_len` exceeds 32.
    pub fn new(addr: u32, prefix_len: u8) -> (r: Option<Cidr>)
        ensures
            r.is_some() == (prefix_len <= 32),
            r matches Some(c) ==> c.spec_addr() == addr && c.spec_prefix_len() == prefix_len,
    {
        if prefix_len <= 32 {
            Some(Cidr { addr, prefix_len })
        } else {
            None
        }
    }

    #[verifier::when_used_as_spec(spec_addr)]
    pub fn addr(&self) -> (r: u32)
        ensures
            r == self.spec_addr(),
    {
        self.addr
    }

    #[verifier::when_used_as_spec(spec_prefix_len)]
    pub fn prefix_len(&self) -> (r: u8)
        ensures
            r == self.spec_prefix_len(),
            r <= 32,
    {
        proof {
            use_type_invariant(self);
        }
        self.prefix_len
    }

    /// Whether the prefix's network contains the address `to`.
    pub fn contains(&self, to: u32) -> (r: bool)
        ensures
            r == self.covers(to),
    {
        proof {
            use_type_invariant(self);
            lemma_in_range_is_same_network(self.addr, self.prefix_len, to);
        }
        net_contains(self.addr, self.prefix_len, to)
    }
}

/// `Ipv4Net::new` followed by `Ipv4Net::contains` on an address, from the
/// `ipnet` crate. With a prefix length of at most 32 the network is built,
/// and the test is whether `to` lies between its network address
/// (`addr` masked by the netmask) and its broadcast address (`addr` with
/// the host bits set), both included.
#[verifier::external_body]
fn net_contains(addr: u32, prefix_len: u8, to: u32) -> (r: bool)
    requires
        prefix_len <= 32,
    ensures
        r == in_range(addr, prefix_len, to),
{
    let net = ipnet::Ipv4Net::new(core::net::Ipv4Addr::from(addr), prefix_len).unwrap();
    net.contains(&core::net::Ipv4Addr::from(to))
}

} // verus!
