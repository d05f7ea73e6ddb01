//! Parsing of textual IPv4 and IPv6 address literals into their numeric
//! values.  The grammar is stated by the spec functions here: an IPv4 literal
//! is four dot-separated decimal octets without leading zeros; an IPv6
//! literal is colon-separated groups of one to four hexadecimal digits, with
//! at most one `::` standing for a run of zero groups.
use crate::text::{chars_of, split_chars, split_on, subvec};
use vstd::prelude::*;

verus! {

/// An IP address as its raw numeric value: 32 bits for IPv4, 128 for IPv6.
#[derive(Clone, Copy, PartialEq, Eq, Structural, Debug)]
pub enum IpAddress {
    V4(u32),
    V6(u128),
}

pub open spec fn is_digit(c: char) -> bool {
    '0' <= c && c <= '9'
}

pub open spec fn digit_val(c: char) -> int {
    c as int - '0' as int
}

pub open spec fn is_hex_digit(c: char) -> bool {
    is_digit(c) || ('a' <= c && c <= 'f') || ('A' <= c && c <= 'F')
}

pub open spec fn hex_val(c: char) -> int {
    if is_digit(c) {
        c as int - '0' as int
    } else if 'a' <= c && c <= 'f' {
        c as int - 'a' as int + 10
    } else {
        c as int - 'A' as int + 10
    }
}

/// The value of a decimal octet field of an IPv4 literal: one to three
/// digits, no leading zero, at most 255.
pub open spec fn dec_octet(s: Seq<char>) -> Option<u8> {
    if s.len() == 1 && is_digit(s[0]) {
        Some(digit_val(s[0]) as u8)
    } else if s.len() == 2 && is_digit(s[0]) && is_digit(s[1]) && s[0] != '0' {
        Some((10 * digit_val(s[0]) + digit_val(s[1])) as u8)
    } else if s.len() == 3 && is_digit(s[0]) && is_digit(s[1]) && is_digit(s[2]) && s[0] != '0'
        && 100 * digit_val(s[0]) + 10 * digit_val(s[1]) + digit_val(s[2]) <= 255 {
        Some((100 * digit_val(s[0]) + 10 * digit_val(s[1]) + digit_val(s[2])) as u8)
    } else {
        None
    }
}

/// The value of a group field of an IPv6 literal: one to four hex digits.
pub open spec fn hex_group(s: Seq<char>) -> Option<u16> {
    if s.len() == 1 && is_hex_digit(s[0]) {
        Some(hex_val(s[0]) as u16)
    } else if s.len() == 2 && is_hex_digit(s[0]) && is_hex_digit(s[1]) {
        Some((16 * hex_val(s[0]) + hex_val(s[1])) as u16)
    } else if s.len() == 3 && is_hex_digit(s[0]) && is_hex_digit(s[1]) && is_hex_digit(s[2]) {
        Some((256 * hex_val(s[0]) + 16 * hex_val(s[1]) + hex_val(s[2])) as u16)
    } else if s.len() == 4 && is_hex_digit(s[0]) && is_hex_digit(s[1]) && is_hex_digit(s[2])
        && is_hex_digit(s[3]) {
        Some((4096 * hex_val(s[0]) + 256 * hex_val(s[1]) + 16 * hex_val(s[2]) + hex_val(
            s[3],
        )) as u16)
    } else {
        None
    }
}

pub open spec fn ipv4_value(a: u8, b: u8, c: u8, d: u8) -> u32 {
    ((a as u32) << 24) | ((b as u32) << 16) | ((c as u32) << 8) | (d as u32)
}

/// The numeric value of an IPv4 literal, if the text is one.
pub open spec fn parse_ipv4(s: Seq<char>) -> Option<u32> {
    let f = split_on(s, '.');
    if f.len() == 4 && dec_octet(f[0]) is Some && dec_octet(f[1]) is Some && dec_octet(
        f[2],
    ) is Some && dec_octet(f[3]) is Some {
        Some(
            ipv4_value(
                dec_octet(f[0]).unwrap(),
                dec_octet(f[1]).unwrap(),
                dec_octet(f[2]).unwrap(),
                dec_octet(f[3]).unwrap(),
            ),
        )
    } else {
        None
    }
}

/// The position of the first `::` in `s`, or `-1` if there is none.
pub open spec fn find_dcolon(s: Seq<char>) -> int
    decreases s.len(),
{
    if s.len() < 2 {
        -1
    } else if s[0] == ':' && s[1] == ':' {
        0
    } else {
        let r = find_dcolon(s.drop_first());
        if r == -1 {
            -1
        } else {
            r + 1
        }
    }
}

pub proof fn lemma_find_dcolon(s: Seq<char>)
    ensures
        find_dcolon(s) == -1 ==> forall|i: int|
            0 <= i && i + 1 < s.len() ==> !((#[trigger] s[i]) == ':' && s[i + 1] == ':'),
        find_dcolon(s) != -1 ==> {
            &&& 0 <= find_dcolon(s)
            &&& find_dcolon(s) + 1 < s.len()
            &&& s[find_dcolon(s)] == ':'
            &&& s[find_dcolon(s) + 1] == ':'
            &&& forall|i: int|
                0 <= i < find_dcolon(s) ==> !((#[trigger] s[i]) == ':' && s[i + 1] == ':')
        },
    decreases s.len(),
{
    if s.len() >= 2 && !(s[0] == ':' && s[1] == ':') {
        let t = s.drop_first();
        lemma_find_dcolon(t);
        if find_dcolon(t) == -1 {
            assert forall|i: int| 0 <= i && i + 1 < s.len() implies !((#[trigger] s[i]) == ':'
                && s[i + 1] == ':') by {
                if i > 0 {
                    assert(t[i - 1] == s[i]);
                    assert(t[i] == s[i + 1]);
                    assert(!(t[i - 1] == ':' && t[i] == ':'));
                }
            }
        } else {
            let r = find_dcolon(t);
            assert(s[r + 1] == t[r]);
            assert(s[r + 2] == t[r + 1]);
            assert forall|i: int| 0 <= i < r + 1 implies !((#[trigger] s[i]) == ':' && s[i + 1]
                == ':') by {
                if i > 0 {
                    assert(t[i - 1] == s[i]);
                    assert(t[i] == s[i + 1]);
                    assert(!(t[i - 1] == ':' && t[i] == ':'));
                }
            }
        }
    }
}

pub open spec fn valid_groups(fs: Seq<Seq<char>>) -> bool {
    forall|i: int| 0 <= i < fs.len() ==> hex_group(#[trigger] fs[i]) is Some
}

pub open spec fn group_vals(fs: Seq<Seq<char>>) -> Seq<u16> {
    fs.map_values(|g: Seq<char>| hex_group(g).unwrap())
}

/// The eight 16-bit words of an IPv6 literal, if the text is one.
pub open spec fn ipv6_words(s: Seq<char>) -> Option<Seq<u16>> {
    let d = find_dcolon(s);
    if d == -1 {
        let f = split_on(s, ':');
        if f.len() == 8 && valid_groups(f) {
            Some(group_vals(f))
        } else {
            None
        }
    } else {
        let left = s.take(d);
        let right = s.skip(d + 2);
        let lf = if left.len() == 0 {
            Seq::<Seq<char>>::empty()
        } else {
            split_on(left, ':')
        };
        let rf = if right.len() == 0 {
            Seq::<Seq<char>>::empty()
        } else {
            split_on(right, ':')
        };
        if lf.len() + rf.len() <= 7 && valid_groups(lf) && valid_groups(rf) {
            Some(
                group_vals(lf) + Seq::<u16>::new((8 - lf.len() - rf.len()) as nat, |i: int| 0u16)
                    + group_vals(rf),
            )
        } else {
            None
        }
    }
}

pub open spec fn ipv6_value(w: Seq<u16>) -> u128 {
    ((w[0] as u128) << 112) | ((w[1] as u128) << 96) | ((w[2] as u128) << 80) | ((w[3] as u128)
        << 64) | ((w[4] as u128) << 48) | ((w[5] as u128) << 32) | ((w[6] as u128) << 16) | (
    w[7] as u128)
}

/// The numeric value of an IPv6 literal, if the text is one.
pub open spec fn parse_ipv6(s: Seq<char>) -> Option<u128> {
    match ipv6_words(s) {
        Some(w) => Some(ipv6_value(w)),
        None => None,
    }
}

/// The address denoted by a textual IP literal of either family.
pub open spec fn parse_ip(s: Seq<char>) -> Option<IpAddress> {
    if parse_ipv4(s) is Some {
        Some(IpAddress::V4(parse_ipv4(s).unwrap()))
    } else if parse_ipv6(s) is Some {
        Some(IpAddress::V6(parse_ipv6(s).unwrap()))
    } else {
        None
    }
}

pub fn digit_value(c: char) -> (r: u8)
    requires
        is_digit(c),
    ensures
        r == digit_val(c),
{
    ((c as u32) - ('0' as u32)) as u8
}

fn hex_digit_value(c: char) -> (r: u8)
    requires
        is_hex_digit(c),
    ensures
        r == hex_val(c),
{
    let u = c as u32;
    if u >= ('a' as u32) && u <= ('f' as u32) {
        (u - ('a' as u32) + 10) as u8
    } else if u >= ('A' as u32) && u <= ('F' as u32) {
        (u - ('A' as u32) + 10) as u8
    } else {
        (u - ('0' as u32)) as u8
    }
}

pub fn is_digit_exec(c: char) -> (r: bool)
    ensures
        r == is_digit(c),
{
    '0' <= c && c <= '9'
}

fn is_hex_digit_exec(c: char) -> (r: bool)
    ensures
        r == is_hex_digit(c),
{
    ('0' <= c && c <= '9') || ('a' <= c && c <= 'f') || ('A' <= c && c <= 'F')
}

/// Parses one decimal octet field.
fn parse_dec_octet(f: &Vec<char>) -> (r: Option<u8>)
    ensures
        r == dec_octet(f@),
{
    if f.len() == 1 && is_digit_exec(f[0]) {
        Some(digit_value(f[0]))
    } else if f.len() == 2 && is_digit_exec(f[0]) && is_digit_exec(f[1]) && f[0] != '0' {
        Some(10 * digit_value(f[0]) + digit_value(f[1]))
    } else if f.len() == 3 && is_digit_exec(f[0]) && is_digit_exec(f[1]) && is_digit_exec(f[2])
        && f[0] != '0' {
        let v: u32 = 100 * (digit_value(f[0]) as u32) + 10 * (digit_value(f[1]) as u32)
            + (digit_value(f[2]) as u32);
        if v <= 255 {
            Some(v as u8)
        } else {
            None
        }
    } else {
        None
    }
}

/// Parses one hexadecimal group field.
fn parse_hex_group(f: &Vec<char>) -> (r: Option<u16>)
    ensures
        r == hex_group(f@),
{
    if f.len() == 1 && is_hex_digit_exec(f[0]) {
        Some(hex_digit_value(f[0]) as u16)
    } else if f.len() == 2 && is_hex_digit_exec(f[0]) && is_hex_digit_exec(f[1]) {
        Some(16 * (hex_digit_value(f[0]) as u16) + (hex_digit_value(f[1]) as u16))
    } else if f.len() == 3 && is_hex_digit_exec(f[0]) && is_hex_digit_exec(f[1])
        && is_hex_digit_exec(f[2]) {
        Some(
            256 * (hex_digit_value(f[0]) as u16) + 16 * (hex_digit_value(f[1]) as u16) + (
            hex_digit_value(f[2]) as u16),
        )
    } else if f.len() == 4 && is_hex_digit_exec(f[0]) && is_hex_digit_exec(f[1])
        && is_hex_digit_exec(f[2]) && is_hex_digit_exec(f[3]) {
        Some(
            4096 * (hex_digit_value(f[0]) as u16) + 256 * (hex_digit_value(f[1]) as u16) + 16 * (
            hex_digit_value(f[2]) as u16) + (hex_digit_value(f[3]) as u16),
        )
    } else {
        None
    }
}

/// Parses an IPv4 literal from its characters.
pub fn parse_ipv4_chars(v: &Vec<char>) -> (r: Option<u32>)
    ensures
        r == parse_ipv4(v@),
{
    let fields = split_chars(v, '.');
    if fields.len() != 4 {
        return None;
    }
    let a = parse_dec_octet(&fields[0]);
    let b = parse_dec_octet(&fields[1]);
    let c = parse_dec_octet(&fields[2]);
    let d = parse_dec_octet(&fields[3]);
    match (a, b, c, d) {
        (Some(a), Some(b), Some(c), Some(d)) => Some(
            ((a as u32) << 24) | ((b as u32) << 16) | ((c as u32) << 8) | (d as u32),
        ),
        _ => None,
    }
}

/// Finds the first `::` in `v`, as `find_dcolon` describes.
fn find_dcolon_chars(v: &Vec<char>) -> (r: Option<usize>)
    ensures
        match r {
            Some(i) => find_dcolon(v@) == i as int,
            None => find_dcolon(v@) == -1,
        },
{
    proof {
        lemma_find_dcolon(v@);
    }
    if v.len() < 2 {
        proof {
            if find_dcolon(v@) != -1 {
                assert(find_dcolon(v@) + 1 < v@.len());
            }
        }
        return None;
    }
    let n = v.len();
    let mut i: usize = 0;
    while i < n - 1
        invariant
            n == v@.len(),
            n >= 2,
            i <= n - 1,
            forall|j: int| 0 <= j < i ==> !((#[trigger] v@[j]) == ':' && v@[j + 1] == ':'),
        decreases n - i,
    {
        if v[i] == ':' && v[i + 1] == ':' {
            proof {
                lemma_find_dcolon(v@);
                if find_dcolon(v@) == -1 {
                    assert(!(v@[i as int] == ':' && v@[i as int + 1] == ':'));
                }
                assert(find_dcolon(v@) == i as int) by {
                    if find_dcolon(v@) < i {
                        assert(!(v@[find_dcolon(v@)] == ':' && v@[find_dcolon(v@) + 1] == ':'));
                    }
                    if find_dcolon(v@) > i {
                        assert(!(v@[i as int] == ':' && v@[i as int + 1] == ':'));
                    }
                }
            }
            return Some(i);
        }
        i = i + 1;
    }
    proof {
        lemma_find_dcolon(v@);
        if find_dcolon(v@) != -1 {
            let d = find_dcolon(v@);
            assert(!(v@[d] == ':' && v@[d + 1] == ':'));
        }
    }
    None
}

/// Parses every field of `fields` as a hex group; `None` if any fails.
fn parse_groups(fields: &Vec<Vec<char>>) -> (r: Option<Vec<u16>>)
    ensures
        match r {
            Some(ws) => {
                &&& valid_groups(fields@.map_values(|f: Vec<char>| f@))
                &&& ws@ == group_vals(fields@.map_values(|f: Vec<char>| f@))
            },
            None => !valid_groups(fields@.map_values(|f: Vec<char>| f@)),
        },
{
    let ghost fv = fields@.map_values(|f: Vec<char>| f@);
    let mut ws: Vec<u16> = Vec::new();
    let mut i: usize = 0;
    while i < fields.len()
        invariant
            i <= fields@.len(),
            fv == fields@.map_values(|f: Vec<char>| f@),
            ws@.len() == i,
            forall|j: int| 0 <= j < i ==> hex_group(#[trigger] fv[j]) is Some,
            forall|j: int| 0 <= j < i ==> ws@[j] == hex_group(fv[j]).unwrap(),
        decreases fields@.len() - i,
    {
        assert(fv[i as int] == fields@[i as int]@);
        match parse_hex_group(&fields[i]) {
            Some(w) => {
                ws.push(w);
            },
            None => {
                assert(hex_group(fv[i as int]) is None);
                return None;
            },
        }
        i = i + 1;
    }
    assert(ws@ =~= group_vals(fv));
    Some(ws)
}

fn words_value(w: &Vec<u16>) -> (r: u128)
    requires
        w@.len() == 8,
    ensures
        r == ipv6_value(w@),
{
    ((w[0] as u128) << 112) | ((w[1] as u128) << 96) | ((w[2] as u128) << 80) | ((w[3] as u128)
        << 64) | ((w[4] as u128) << 48) | ((w[5] as u128) << 32) | ((w[6] as u128) << 16) | (
    w[7] as u128)
}

/// Parses an IPv6 literal from its characters.
pub fn parse_ipv6_chars(v: &Vec<char>) -> (r: Option<u128>)
    ensures
        r == parse_ipv6(v@),
{
    match find_dcolon_chars(v) {
        None => {
            let fields = split_chars(v, ':');
            proof {
                assert(fields@.map_values(|f: Vec<char>| f@) =~= split_on(v@, ':'));
            }
            if fields.len() != 8 {
                return None;
            }
            match parse_groups(&fields) {
                Some(ws) => Some(words_value(&ws)),
                None => None,
            }
        },
        Some(d) => {
            proof {
                lemma_find_dcolon(v@);
                assert(d as int + 2 <= v@.len());
            }
            let n = v.len();
            let left = subvec(v, 0, d);
            let right = subvec(v, d + 2, n);
            proof {
                assert(left@ =~= v@.take(d as int));
                assert(right@ =~= v@.skip(d as int + 2));
            }
            let lf: Vec<Vec<char>> = if left.len() == 0 {
                Vec::new()
            } else {
                split_chars(&left, ':')
            };
            let rf: Vec<Vec<char>> = if right.len() == 0 {
                Vec::new()
            } else {
                split_chars(&right, ':')
            };
            let ghost lfv = if v@.take(d as int).len() == 0 {
                Seq::<Seq<char>>::empty()
            } else {
                split_on(v@.take(d as int), ':')
            };
            let ghost rfv = if v@.skip(d as int + 2).len() == 0 {
                Seq::<Seq<char>>::empty()
            } else {
                split_on(v@.skip(d as int + 2), ':')
            };
            proof {
                assert(lf@.map_values(|f: Vec<char>| f@) =~= lfv);
                assert(rf@.map_values(|f: Vec<char>| f@) =~= rfv);
            }
            if lf.len() > 7 || rf.len() > 7 - lf.len() {
                return None;
            }
            let lw = match parse_groups(&lf) {
                Some(ws) => ws,
                None => {
                    return None;
                },
            };
            let rw = match parse_groups(&rf) {
                Some(ws) => ws,
                None => {
                    return None;
                },
            };
            let zeros: usize = 8 - lw.len() - rw.len();
            let mut words: Vec<u16> = Vec::new();
            let mut i: usize = 0;
            while i < lw.len()
                invariant
                    i <= lw@.len(),
                    words@ == lw@.take(i as int),
                decreases lw@.len() - i,
            {
                words.push(lw[i]);
                assert(words@ =~= lw@.take(i + 1 as int));
                i = i + 1;
            }
            let mut z: usize = 0;
            while z < zeros
                invariant
                    z <= zeros,
                    words@ == lw@.take(lw@.len() as int) + Seq::<u16>::new(
                        z as nat,
                        |i: int| 0u16,
                    ),
                decreases zeros - z,
            {
                words.push(0u16);
                assert(words@ =~= lw@.take(lw@.len() as int) + Seq::<u16>::new(
                    (z + 1) as nat,
                    |i: int| 0u16,
                ));
                z = z + 1;
            }
            let mut j: usize = 0;
            while j < rw.len()
                invariant
                    j <= rw@.len(),
                    words@ == lw@.take(lw@.len() as int) + Seq::<u16>::new(
                        zeros as nat,
                        |i: int| 0u16,
                    ) + rw@.take(j as int),
                decreases rw@.len() - j,
            {
                words.push(rw[j]);
                assert(words@ =~= lw@.take(lw@.len() as int) + Seq::<u16>::new(
                    zeros as nat,
                    |i: int| 0u16,
                ) + rw@.take(j + 1 as int));
                j = j + 1;
            }
            proof {
                assert(lw@.take(lw@.len() as int) =~= lw@);
                assert(rw@.take(rw@.len() as int) =~= rw@);
                assert(words@ =~= group_vals(lfv) + Seq::<u16>::new(
                    (8 - lfv.len() - rfv.len()) as nat,
                    |i: int| 0u16,
                ) + group_vals(rfv));
                assert(words@.len() == 8);
            }
            Some(words_value(&words))
        },
    }
}

/// Parses an IP literal of either family from its characters.
pub fn parse_ip_chars(v: &Vec<char>) -> (r: Option<IpAddress>)
    ensures
        r == parse_ip(v@),
{
    match parse_ipv4_chars(v) {
        Some(a) => Some(IpAddress::V4(a)),
        None => match parse_ipv6_chars(v) {
            Some(a) => Some(IpAddress::V6(a)),
            None => None,
        },
    }
}

/// Parses a textual IP literal of either family.
pub fn parse_ip_str(s: &str) -> (r: Option<IpAddress>)
    ensures
        r == parse_ip(s@),
{
    let v = chars_of(s);
    parse_ip_chars(&v)
}

} // verus!
