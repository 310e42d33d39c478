//! Network addresses as plain values.

use crate::text::{decimal, push_decimal};
use vstd::prelude::*;

verus! {

/// An IPv4 address, held as the number that its four octets spell.
#[derive(Clone, Copy, PartialEq, Eq, Structural, Debug)]
pub struct Ipv4Addr {
    pub bits: u32,
}

impl Ipv4Addr {
    /// The octets, in network order.
    pub open spec fn octets_view(self) -> Seq<u8> {
        seq![
            (self.bits / 0x1000000) as u8,
            (self.bits / 0x10000 % 0x100) as u8,
            (self.bits / 0x100 % 0x100) as u8,
            (self.bits % 0x100) as u8,
        ]
    }

    /// Dotted decimal notation.
    pub open spec fn text(self) -> Seq<char> {
        decimal(self.octets_view()[0] as nat) + "."@ + decimal(self.octets_view()[1] as nat) + "."@
            + decimal(self.octets_view()[2] as nat) + "."@ + decimal(
            self.octets_view()[3] as nat,
        )
    }

    /// `0.0.0.0`, the address of a host that has none.
    pub open spec fn spec_unspecified() -> Ipv4Addr {
        Ipv4Addr { bits: 0 }
    }

    /// `255.255.255.255`, the address of every host on the link.
    pub open spec fn spec_broadcast() -> Ipv4Addr {
        Ipv4Addr { bits: 0xffff_ffff }
    }

    /// The address `0.0.0.0`.
    pub fn unspecified() -> (r: Ipv4Addr)
        ensures
            r == Ipv4Addr::spec_unspecified(),
    {
        Ipv4Addr { bits: 0 }
    }

    /// The address `255.255.255.255`.
    pub fn broadcast() -> (r: Ipv4Addr)
        ensures
            r == Ipv4Addr::spec_broadcast(),
    {
        Ipv4Addr { bits: 0xffff_ffff }
    }

    /// The address with octets `a.b.c.d`.
    pub fn new(a: u8, b: u8, c: u8, d: u8) -> (r: Ipv4Addr)
        ensures
            r.octets_view() == seq![a, b, c, d],
            r.bits == a * 0x1000000 + b * 0x10000 + c * 0x100 + d,
    {
        let bits: u32 = a as u32 * 0x1000000 + b as u32 * 0x10000 + c as u32 * 0x100 + d as u32;
        assert(bits / 0x100 == a * 0x10000 + b * 0x100 + c);
        assert(bits / 0x10000 == a * 0x100 + b);
        assert(bits / 0x1000000 == a);
        Ipv4Addr { bits }
    }

    /// The four octets of the address, in network order.
    pub fn octets(&self) -> (r: [u8; 4])
        ensures
            r@ == self.octets_view(),
    {
        [
            (self.bits / 0x1000000) as u8,
            (self.bits / 0x10000 % 0x100) as u8,
            (self.bits / 0x100 % 0x100) as u8,
            (self.bits % 0x100) as u8,
        ]
    }

    /// Appends the address in dotted decimal notation.
    pub fn push_text(&self, out: &mut String)
        ensures
            final(out)@ == old(out)@ + self.text(),
    {
        let o = self.octets();
        push_decimal(out, o[0] as u64);
        out.append(".");
        push_decimal(out, o[1] as u64);
        out.append(".");
        push_decimal(out, o[2] as u64);
        out.append(".");
        push_decimal(out, o[3] as u64);
        assert(out@ =~= old(out)@ + self.text());
    }
}

/// An address of either version of the protocol. One of the newer version is kept
/// as its text: only IPv4 networks are diagnosed.
#[derive(Debug)]
pub enum IpAddr {
    V4(Ipv4Addr),
    V6(String),
}

impl IpAddr {
    /// The address as text.
    pub open spec fn text(self) -> Seq<char> {
        match self {
            IpAddr::V4(ip) => ip.text(),
            IpAddr::V6(text) => text@,
        }
    }

    /// The IPv4 address, or `0.0.0.0` where there is none.
    pub open spec fn ipv4(self) -> Ipv4Addr {
        match self {
            IpAddr::V4(ip) => ip,
            IpAddr::V6(_) => Ipv4Addr::spec_unspecified(),
        }
    }

    /// Appends the address as text.
    pub fn push_text(&self, out: &mut String)
        ensures
            final(out)@ == old(out)@ + self.text(),
    {
        match self {
            IpAddr::V4(ip) => ip.push_text(out),
            IpAddr::V6(text) => out.append(text.as_str()),
        }
    }

    /// The IPv4 address, or `0.0.0.0` where there is none.
    pub fn to_ipv4(&self) -> (r: Ipv4Addr)
        ensures
            r == self.ipv4(),
    {
        match self {
            IpAddr::V4(ip) => *ip,
            IpAddr::V6(_) => Ipv4Addr::unspecified(),
        }
    }
}

/// The character that stands for the hexadecimal digit `d`, in small letters.
pub open spec fn small_hex_digit(d: nat) -> char {
    if d < 10 {
        (48 + d) as char
    } else {
        (87 + d) as char
    }
}

/// A byte as two hexadecimal digits, in small letters.
pub open spec fn small_hex_byte(b: u8) -> Seq<char> {
    seq![small_hex_digit((b / 16) as nat), small_hex_digit((b % 16) as nat)]
}

/// Six bytes as colon-separated hexadecimal pairs.
pub open spec fn colon_hex(o: Seq<u8>) -> Seq<char> {
    small_hex_byte(o[0]) + ":"@ + small_hex_byte(o[1]) + ":"@ + small_hex_byte(o[2]) + ":"@
        + small_hex_byte(o[3]) + ":"@ + small_hex_byte(o[4]) + ":"@ + small_hex_byte(o[5])
}

/// Calls `to_string` on pnet's `MacAddr`, whose `Display` writes the six bytes
/// as `{:02x}` each, joined by colons. The contract claims just that.
#[verifier::external_body]
fn pnet_mac_text(a: u8, b: u8, c: u8, d: u8, e: u8, f: u8) -> (r: String)
    ensures
        r@ == colon_hex(seq![a, b, c, d, e, f]),
{
    pnet::util::MacAddr::new(a, b, c, d, e, f).to_string()
}

/// An Ethernet address: six octets.
#[derive(Clone, Copy, PartialEq, Eq, Structural, Debug)]
pub struct MacAddr(pub u8, pub u8, pub u8, pub u8, pub u8, pub u8);

impl MacAddr {
    /// The octets, in transmission order.
    pub open spec fn octets_view(self) -> Seq<u8> {
        seq![self.0, self.1, self.2, self.3, self.4, self.5]
    }

    /// Colon-separated hexadecimal notation.
    pub open spec fn text(self) -> Seq<char> {
        colon_hex(self.octets_view())
    }

    /// The address that every station on a link listens to.
    pub open spec fn spec_broadcast() -> MacAddr {
        MacAddr(0xff, 0xff, 0xff, 0xff, 0xff, 0xff)
    }

    /// The broadcast address `ff:ff:ff:ff:ff:ff`.
    pub fn broadcast() -> (r: MacAddr)
        ensures
            r == MacAddr::spec_broadcast(),
    {
        MacAddr(0xff, 0xff, 0xff, 0xff, 0xff, 0xff)
    }

    /// The all-zero address.
    pub fn zero() -> (r: MacAddr)
        ensures
            r == MacAddr(0, 0, 0, 0, 0, 0),
    {
        MacAddr(0, 0, 0, 0, 0, 0)
    }

    /// The six octets of the address.
    pub fn octets(&self) -> (r: [u8; 6])
        ensures
            r@ == self.octets_view(),
    {
        [self.0, self.1, self.2, self.3, self.4, self.5]
    }

    /// The address in colon-separated hexadecimal notation.
    pub fn to_text(&self) -> (r: String)
        ensures
            r@ == self.text(),
    {
        pnet_mac_text(self.0, self.1, self.2, self.3, self.4, self.5)
    }
}

/// An address is the number that its octets spell.
pub proof fn octets_spell_bits(a: Ipv4Addr)
    ensures
        a.bits == a.octets_view()[0] * 0x1000000 + a.octets_view()[1] * 0x10000
            + a.octets_view()[2] * 0x100 + a.octets_view()[3],
{
    let n = a.bits;
    assert(n / 0x10000 == (n / 0x100) / 0x100);
    assert(n / 0x1000000 == (n / 0x10000) / 0x100);
}

/// An IPv4 address is determined by its octets.
pub proof fn octets_determine_address(a: Ipv4Addr, b: Ipv4Addr)
    requires
        a.octets_view() == b.octets_view(),
    ensures
        a == b,
{
    octets_spell_bits(a);
    octets_spell_bits(b);
}

/// Dotted decimal notation gives the four octets in network order.
pub proof fn text_spells_the_octets(ip: Ipv4Addr, a: u8, b: u8, c: u8, d: u8)
    requires
        ip.bits == a * 0x1000000 + b * 0x10000 + c * 0x100 + d,
    ensures
        ip.octets_view() == seq![a, b, c, d],
        ip.text() == decimal(a as nat) + "."@ + decimal(b as nat) + "."@ + decimal(c as nat) + "."@
            + decimal(d as nat),
{
    let n = ip.bits;
    assert(n / 0x100 == a * 0x10000 + b * 0x100 + c);
    assert(n / 0x10000 == a * 0x100 + b);
    assert(n / 0x1000000 == a);
    assert(ip.octets_view() =~= seq![a, b, c, d]);
}

/// An address of either version is shown as it is; only one of the older version
/// stands for an IPv4 address.
pub proof fn address_of_either_version(ip: IpAddr)
    ensures
        ip matches IpAddr::V4(v4) ==> ip.ipv4() == v4 && ip.text() == v4.text(),
        ip matches IpAddr::V6(text) ==> ip.ipv4().bits == 0 && ip.text() == text@,
{
}

} // verus!
