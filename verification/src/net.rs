//! Client addresses and the networks that trusted proxies are in.

use ipnet::AddrParseError;
use vstd::arithmetic::div_mod::{lemma_basic_div, lemma_div_basics};
use vstd::arithmetic::power2::{lemma2_to64, lemma_pow2_adds, lemma_pow2_pos, pow2};
use vstd::bits::{lemma_u128_shr_is_div, lemma_u32_shr_is_div};
use vstd::prelude::*;

verus! {

/// The error of text that is not a network in CIDR form.
#[verifier::external_type_specification]
#[verifier::external_body]
pub struct ExAddrParseError(AddrParseError);

/// An IP address as a number.
#[derive(Clone, Copy, Debug, PartialEq, Eq, Structural)]
pub enum IpAddress {
    V4(u32),
    V6(u128),
}

/// The address of a client: as a number, and in the form in which it is written.
#[derive(Clone, Debug, PartialEq, Eq)]
pub struct ClientAddr {
    pub ip: IpAddress,
    pub text: String,
}

/// A network: the addresses that agree with `addr` in the first `prefix_len` bits.
#[allow(inconsistent_fields)]
#[derive(Clone, Copy, Debug, PartialEq, Eq, Structural)]
pub enum IpNet {
    V4 { addr: u32, prefix_len: u8 },
    V6 { addr: u128, prefix_len: u8 },
}

/// The number of bits of an address of `width` bits behind the prefix. A prefix
/// longer than the address is the whole address.
pub open spec fn host_bits(width: nat, prefix_len: u8) -> nat {
    if prefix_len as nat >= width {
        0
    } else {
        (width - prefix_len) as nat
    }
}

/// Whether an address is in a network.
pub open spec fn in_network(ip: IpAddress, net: IpNet) -> bool {
    match (net, ip) {
        (IpNet::V4 { addr, prefix_len }, IpAddress::V4(a)) => {
            let scale = pow2(host_bits(32, prefix_len)) as int;
            addr as int / scale == a as int / scale
        },
        (IpNet::V6 { addr, prefix_len }, IpAddress::V6(a)) => {
            let scale = pow2(host_bits(128, prefix_len)) as int;
            addr as int / scale == a as int / scale
        },
        _ => false,
    }
}

/// Whether two addresses of 32 bits agree in the first `prefix_len` bits.
fn same_prefix_v4(a: u32, b: u32, prefix_len: u8) -> (r: bool)
    ensures
        r == ({
            let scale = pow2(host_bits(32, prefix_len)) as int;
            a as int / scale == b as int / scale
        }),
{
    proof {
        lemma2_to64();
    }
    if prefix_len == 0 {
        proof {
            lemma_basic_div(a as int, pow2(32) as int);
            lemma_basic_div(b as int, pow2(32) as int);
        }
        true
    } else if prefix_len >= 32 {
        proof {
            lemma_div_basics(a as int);
            lemma_div_basics(b as int);
        }
        a == b
    } else {
        let shift: u32 = 32 - prefix_len as u32;
        proof {
            lemma_u32_shr_is_div(a, shift);
            lemma_u32_shr_is_div(b, shift);
        }
        a >> shift == b >> shift
    }
}

/// Whether two addresses of 128 bits agree in the first `prefix_len` bits.
fn same_prefix_v6(a: u128, b: u128, prefix_len: u8) -> (r: bool)
    ensures
        r == ({
            let scale = pow2(host_bits(128, prefix_len)) as int;
            a as int / scale == b as int / scale
        }),
{
    proof {
        lemma2_to64();
    }
    if prefix_len == 0 {
        proof {
            lemma_pow2_adds(64, 64);
            assert(pow2(128) == u128::MAX + 1);
            lemma_basic_div(a as int, pow2(128) as int);
            lemma_basic_div(b as int, pow2(128) as int);
        }
        true
    } else if prefix_len >= 128 {
        proof {
            lemma_div_basics(a as int);
            lemma_div_basics(b as int);
        }
        a == b
    } else {
        let shift: u128 = 128 - prefix_len as u128;
        proof {
            lemma_u128_shr_is_div(a, shift);
            lemma_u128_shr_is_div(b, shift);
        }
        a >> shift == b >> shift
    }
}

impl IpNet {
    /// Whether the network has the address.
    pub fn contains(&self, ip: &IpAddress) -> (r: bool)
        ensures
            r == in_network(*ip, *self),
    {
        match (*self, *ip) {
            (IpNet::V4 { addr, prefix_len }, IpAddress::V4(a)) => same_prefix_v4(
                addr,
                a,
                prefix_len,
            ),
            (IpNet::V6 { addr, prefix_len }, IpAddress::V6(a)) => same_prefix_v6(
                addr,
                a,
                prefix_len,
            ),
            _ => false,
        }
    }
}

/// The network that text in CIDR form denotes for `ipnet::IpNet`, if it is one.
pub uninterp spec fn ip_net_of(text: Seq<char>) -> Option<IpNet>;

/// `ipnet::IpNet::from_str` reads a network in CIDR form.
#[verifier::external_body]
pub(crate) fn parse_ip_net(text: &str) -> (r: Result<IpNet, AddrParseError>)
    ensures
        match r {
            Ok(net) => ip_net_of(text@) == Some(net),
            Err(_) => ip_net_of(text@) is None,
        },
{
    Ok(match text.parse::<ipnet::IpNet>()? {
        ipnet::IpNet::V4(n) => IpNet::V4 { addr: n.addr().into(), prefix_len: n.prefix_len() },
        ipnet::IpNet::V6(n) => IpNet::V6 { addr: n.addr().into(), prefix_len: n.prefix_len() },
    })
}

/// A network has the address that it is written with. A network without a prefix
/// has every address of its family, and one whose prefix is the whole address has
/// that address alone. A network has no address of the other family.
pub proof fn networks_by_prefix(net: IpNet, ip: IpAddress)
    ensures
        match (net, ip) {
            (IpNet::V4 { addr, prefix_len }, IpAddress::V4(a)) => {
                &&& in_network(IpAddress::V4(addr), net)
                &&& prefix_len == 0 ==> in_network(ip, net)
                &&& prefix_len >= 32 ==> (in_network(ip, net) <==> a == addr)
            },
            (IpNet::V6 { addr, prefix_len }, IpAddress::V6(a)) => {
                &&& in_network(IpAddress::V6(addr), net)
                &&& prefix_len == 0 ==> in_network(ip, net)
                &&& prefix_len >= 128 ==> (in_network(ip, net) <==> a == addr)
            },
            _ => !in_network(ip, net),
        },
{
    lemma2_to64();
    match (net, ip) {
        (IpNet::V4 { addr, prefix_len }, IpAddress::V4(a)) => {
            lemma_basic_div(a as int, pow2(32) as int);
            lemma_basic_div(addr as int, pow2(32) as int);
            lemma_div_basics(a as int);
            lemma_div_basics(addr as int);
        },
        (IpNet::V6 { addr, prefix_len }, IpAddress::V6(a)) => {
            lemma_pow2_adds(64, 64);
            assert(pow2(128) == u128::MAX + 1);
            lemma_basic_div(a as int, pow2(128) as int);
            lemma_basic_div(addr as int, pow2(128) as int);
            lemma_div_basics(a as int);
            lemma_div_basics(addr as int);
        },
        _ => {},
    }
}

proof fn lemma_same_block(a: int, b: int, size: int, q: int)
    requires
        size > 0,
        q * size <= a < (q + 1) * size,
    ensures
        a / size == b / size <==> q * size <= b < (q + 1) * size,
{
    lemma_block_of(a, size);
    lemma_block_of(b, size);
    let x = a / size;
    let y = b / size;
    assert(x == q) by (nonlinear_arith)
        requires
            size > 0,
            q * size <= a < (q + 1) * size,
            x * size <= a < (x + 1) * size,
    ;
    if q * size <= b < (q + 1) * size {
        assert(y == q) by (nonlinear_arith)
            requires
                size > 0,
                q * size <= b < (q + 1) * size,
                y * size <= b < (y + 1) * size,
        ;
    }
}

proof fn lemma_block_of(a: int, size: int)
    requires
        size > 0,
    ensures
        (a / size) * size <= a < (a / size + 1) * size,
{
    assert((a / size) * size <= a < (a / size + 1) * size) by (nonlinear_arith)
        requires
            size > 0,
    ;
}

/// The addresses of a network are the block of those that its prefix leaves open:
/// with blocks of two to the power of the bits behind the prefix, an address is in
/// the network if and only if it is in the block of the network's address.
pub proof fn networks_are_blocks(net: IpNet, ip: IpAddress, q: int)
    ensures
        match (net, ip) {
            (IpNet::V4 { addr, prefix_len }, IpAddress::V4(a)) => {
                let size = pow2((32 - prefix_len) as nat) as int;
                prefix_len <= 32 && q * size <= addr < (q + 1) * size ==> (in_network(ip, net)
                    <==> q * size <= a < (q + 1) * size)
            },
            (IpNet::V6 { addr, prefix_len }, IpAddress::V6(a)) => {
                let size = pow2((128 - prefix_len) as nat) as int;
                prefix_len <= 128 && q * size <= addr < (q + 1) * size ==> (in_network(ip, net)
                    <==> q * size <= a < (q + 1) * size)
            },
            _ => !in_network(ip, net),
        },
{
    match (net, ip) {
        (IpNet::V4 { addr, prefix_len }, IpAddress::V4(a)) => {
            let size = pow2((32 - prefix_len) as nat) as int;
            lemma_pow2_pos((32 - prefix_len) as nat);
            if prefix_len <= 32 && q * size <= addr < (q + 1) * size {
                lemma_same_block(addr as int, a as int, size, q);
            }
        },
        (IpNet::V6 { addr, prefix_len }, IpAddress::V6(a)) => {
            let size = pow2((128 - prefix_len) as nat) as int;
            lemma_pow2_pos((128 - prefix_len) as nat);
            if prefix_len <= 128 && q * size <= addr < (q + 1) * size {
                lemma_same_block(addr as int, a as int, size, q);
            }
        },
        _ => {},
    }
}

} // verus!
