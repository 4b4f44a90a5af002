//! Network addresses as plain values.

use vstd::prelude::*;

verus! {

/// An IP address, held as the number its octets denote.
#[derive(Debug, Clone, Copy, PartialEq, Eq, Structural)]
pub enum IpAddr {
    V4(u32),
    V6(u128),
}

/// A transport address. `flow_info` and `scope_id` are zero for IPv4.
#[derive(Debug, Clone, Copy, PartialEq, Eq, Structural)]
pub struct SocketAddr {
    pub ip: IpAddr,
    pub port: u16,
    pub flow_info: u32,
    pub scope_id: u32,
}

/// An IP address as a tuple of integers: the family (4 or 6) and the number.
pub type IpKey = (u8, u128);

/// A transport address as a tuple of integers: family, number, port, flow
/// label and scope.
pub type AddrKey = (u8, u128, u16, u32, u32);

impl IpAddr {
    /// The IPv4 address `a.b.c.d`.
    pub fn v4(a: u8, b: u8, c: u8, d: u8) -> (ip: IpAddr)
        ensures
            ip == IpAddr::V4((a * 16777216 + b * 65536 + c * 256 + d) as u32),
    {
        IpAddr::V4(a as u32 * 16777216 + b as u32 * 65536 + c as u32 * 256 + d as u32)
    }

    pub open spec fn spec_key(self) -> IpKey {
        match self {
            IpAddr::V4(v) => (4u8, v as u128),
            IpAddr::V6(v) => (6u8, v),
        }
    }

    /// The address as a tuple of integers; distinct addresses have distinct keys.
    pub fn key(&self) -> (k: IpKey)
        ensures
            k == self.spec_key(),
    {
        match *self {
            IpAddr::V4(v) => (4u8, v as u128),
            IpAddr::V6(v) => (6u8, v),
        }
    }
}

impl SocketAddr {
    /// The address `ip:port`.
    pub fn new(ip: IpAddr, port: u16) -> (addr: SocketAddr)
        ensures
            addr == socket_addr(ip, port),
    {
        SocketAddr { ip, port, flow_info: 0, scope_id: 0 }
    }

    pub open spec fn spec_key(self) -> AddrKey {
        (self.ip.spec_key().0, self.ip.spec_key().1, self.port, self.flow_info, self.scope_id)
    }

    /// The address as a tuple of integers; distinct addresses have distinct keys.
    pub fn key(&self) -> (k: AddrKey)
        ensures
            k == self.spec_key(),
    {
        let ip = self.ip.key();
        (ip.0, ip.1, self.port, self.flow_info, self.scope_id)
    }

    /// The wildcard address to listen on so that `ip` is reachable: the
    /// unspecified address of the same family.
    pub fn wildcard_for(ip: IpAddr, port: u16) -> (addr: SocketAddr)
        ensures
            addr == socket_addr(
                match ip {
                    IpAddr::V4(_) => IpAddr::V4(0),
                    IpAddr::V6(_) => IpAddr::V6(0),
                },
                port,
            ),
    {
        match ip {
            IpAddr::V4(_) => SocketAddr::new(IpAddr::V4(0), port),
            IpAddr::V6(_) => SocketAddr::new(IpAddr::V6(0), port),
        }
    }
}

/// The address `ip:port` without flow label or scope.
pub open spec fn socket_addr(ip: IpAddr, port: u16) -> SocketAddr {
    SocketAddr { ip, port, flow_info: 0, scope_id: 0 }
}

/// Two IP addresses with the same key are the same address.
pub broadcast proof fn ip_key_injective(a: IpAddr, b: IpAddr)
    ensures
        #![trigger a.spec_key(), b.spec_key()]
        a.spec_key() == b.spec_key() ==> a == b,
{
}

/// Two transport addresses with the same key are the same address.
pub broadcast proof fn addr_key_injective(a: SocketAddr, b: SocketAddr)
    ensures
        #![trigger a.spec_key(), b.spec_key()]
        a.spec_key() == b.spec_key() ==> a == b,
{
    ip_key_injective(a.ip, b.ip);
}

} // verus!
