//! Network blocks: a base address, a prefix length and a country label,
//! parsed from `"address/prefix"` text, with the prefix-mask containment
//! test for both address families.
use crate::ip::{digit_val, digit_value, is_digit, is_digit_exec, parse_ip, parse_ip_chars, IpAddress};
use crate::text::{chars_of, split_chars, split_on};
use vstd::prelude::*;

verus! {

/// One network block of the classifier table.
pub struct CidrBlock {
    pub network: IpAddress,
    pub prefix_len: u8,
    pub country: String,
}

/// The mathematical image of a `CidrBlock`.
pub struct CidrBlockV {
    pub network: IpAddress,
    pub prefix_len: u8,
    pub country: Seq<char>,
}

impl View for CidrBlock {
    type V = CidrBlockV;

    open spec fn view(&self) -> CidrBlockV {
        CidrBlockV { network: self.network, prefix_len: self.prefix_len, country: self.country@ }
    }
}

/// The IPv4 mask with the top `p` bits set (all bits for `p >= 32`).
pub open spec fn mask4(p: u8) -> u32 {
    if p == 0 {
        0u32
    } else if p >= 32 {
        0xffff_ffffu32
    } else {
        0xffff_ffffu32 << ((32 - p) as u32)
    }
}

/// The IPv6 mask with the top `p` bits set (all bits for `p >= 128`).
pub open spec fn mask6(p: u8) -> u128 {
    if p == 0 {
        0u128
    } else if p >= 128 {
        0xffff_ffff_ffff_ffff_ffff_ffff_ffff_ffffu128
    } else {
        0xffff_ffff_ffff_ffff_ffff_ffff_ffff_ffffu128 << ((128 - p) as u128)
    }
}

/// Whether `ip` lies in block `b`: the two must be of the same address
/// family and agree on the top `b.prefix_len` bits.  A family mismatch is
/// never a match.
pub open spec fn block_contains(b: CidrBlockV, ip: IpAddress) -> bool {
    match (b.network, ip) {
        (IpAddress::V4(net), IpAddress::V4(a)) => (net & mask4(b.prefix_len)) == (a & mask4(
            b.prefix_len,
        )),
        (IpAddress::V6(net), IpAddress::V6(a)) => (net & mask6(b.prefix_len)) == (a & mask6(
            b.prefix_len,
        )),
        _ => false,
    }
}

fn mask4_exec(p: u8) -> (r: u32)
    ensures
        r == mask4(p),
{
    if p == 0 {
        0u32
    } else if p >= 32 {
        0xffff_ffffu32
    } else {
        0xffff_ffffu32 << ((32 - p) as u32)
    }
}

fn mask6_exec(p: u8) -> (r: u128)
    ensures
        r == mask6(p),
{
    if p == 0 {
        0u128
    } else if p >= 128 {
        0xffff_ffff_ffff_ffff_ffff_ffff_ffff_ffffu128
    } else {
        0xffff_ffff_ffff_ffff_ffff_ffff_ffff_ffffu128 << ((128 - p) as u128)
    }
}

/// The value of a prefix-length field: one to three decimal digits, at most
/// 255 (leading zeros allowed).
pub open spec fn prefix_num(s: Seq<char>) -> Option<u8> {
    if s.len() == 1 && is_digit(s[0]) {
        Some(digit_val(s[0]) as u8)
    } else if s.len() == 2 && is_digit(s[0]) && is_digit(s[1]) {
        Some((10 * digit_val(s[0]) + digit_val(s[1])) as u8)
    } else if s.len() == 3 && is_digit(s[0]) && is_digit(s[1]) && is_digit(s[2]) && 100 * digit_val(
        s[0],
    ) + 10 * digit_val(s[1]) + digit_val(s[2]) <= 255 {
        Some((100 * digit_val(s[0]) + 10 * digit_val(s[1]) + digit_val(s[2])) as u8)
    } else {
        None
    }
}

fn parse_prefix_num(f: &Vec<char>) -> (r: Option<u8>)
    ensures
        r == prefix_num(f@),
{
    if f.len() == 1 && is_digit_exec(f[0]) {
        Some(digit_value(f[0]))
    } else if f.len() == 2 && is_digit_exec(f[0]) && is_digit_exec(f[1]) {
        Some(10 * digit_value(f[0]) + digit_value(f[1]))
    } else if f.len() == 3 && is_digit_exec(f[0]) && is_digit_exec(f[1]) && is_digit_exec(f[2]) {
        let v: u32 = 100 * (digit_value(f[0]) as u32) + 10 * (digit_value(f[1]) as u32)
            + (digit_value(f[2]) as u32);
        if v <= 255 {
            Some(v as u8)
        } else {
            None
        }
    } else {
        None
    }
}

/// The block denoted by a `"address/prefix"` literal paired with a label,
/// or `None` if the text is malformed.
pub open spec fn spec_parse_block(cidr: Seq<char>, country: Seq<char>) -> Option<CidrBlockV> {
    let f = split_on(cidr, '/');
    if f.len() == 2 && parse_ip(f[0]) is Some && prefix_num(f[1]) is Some {
        Some(
            CidrBlockV {
                network: parse_ip(f[0]).unwrap(),
                prefix_len: prefix_num(f[1]).unwrap(),
                country,
            },
        )
    } else {
        None
    }
}

/// The view of an optional block.
pub open spec fn opt_block_view(r: Option<CidrBlock>) -> Option<CidrBlockV> {
    match r {
        Some(b) => Some(b@),
        None => None,
    }
}

impl CidrBlock {
    /// Parses a `"address/prefix"` literal with its country label; malformed
    /// text yields `None`, never an error.
    pub fn new(cidr: &str, country: &str) -> (r: Option<CidrBlock>)
        ensures
            opt_block_view(r) == spec_parse_block(cidr@, country@),
    {
        let v = chars_of(cidr);
        let fields = split_chars(&v, '/');
        if fields.len() != 2 {
            return None;
        }
        let net = parse_ip_chars(&fields[0]);
        let pre = parse_prefix_num(&fields[1]);
        match (net, pre) {
            (Some(network), Some(prefix_len)) => Some(
                CidrBlock { network, prefix_len, country: country.to_owned() },
            ),
            _ => None,
        }
    }

    /// The containment test, as `block_contains` describes.
    pub fn contains(&self, ip: IpAddress) -> (r: bool)
        ensures
            r == block_contains(self@, ip),
    {
        match (self.network, ip) {
            (IpAddress::V4(net), IpAddress::V4(a)) => {
                let m = mask4_exec(self.prefix_len);
                (net & m) == (a & m)
            },
            (IpAddress::V6(net), IpAddress::V6(a)) => {
                let m = mask6_exec(self.prefix_len);
                (net & m) == (a & m)
            },
            _ => false,
        }
    }
}

} // verus!
