//! The addresses of servers: `ldap://host[:port]`, `ldaps://host[:port]`
//! and `ldapi://` followed by the percent-encoded path of a socket.

use vstd::prelude::*;
use vstd::string::StringSliceAdditionalSpecFns;
use crate::filter::{hex_digit, hex_value, is_digit, is_hex};
use crate::structure::copy_range;
use crate::text::{text_of, utf8_string};

verus! {

/// The port of `ldap://` when none is given.
pub const LDAP_PORT: u16 = 389;

/// The port of `ldaps://` when none is given.
pub const LDAPS_PORT: u16 = 636;

/// How the server is reached.
#[derive(Clone, Copy, PartialEq, Eq, Debug, Structural)]
pub enum Scheme {
    /// Over TCP.
    Ldap,
    /// Over TCP, secured from the start.
    Ldaps,
    /// Over a Unix domain socket.
    Ldapi,
}

/// Where a server is: the host and the port or, for a socket, its path
/// (and the port 0).
#[derive(Clone, Debug, PartialEq, Eq)]
pub struct LdapUrl {
    pub scheme: Scheme,
    pub host: String,
    pub port: u16,
}

/// Mathematical content of an address.
pub struct UrlModel {
    pub scheme: Scheme,
    pub host: Seq<char>,
    pub port: u16,
}

impl View for LdapUrl {
    type V = UrlModel;

    open spec fn view(&self) -> UrlModel {
        UrlModel { scheme: self.scheme, host: self.host@, port: self.port }
    }
}

/// The scheme that a text begins with, and the position behind `://`.
pub open spec fn scheme_of(s: Seq<u8>) -> Option<(Scheme, int)> {
    if s.len() >= 7 && s[0] == 0x6c && s[1] == 0x64 && s[2] == 0x61 && s[3] == 0x70 {
        if s[4] == 0x3a && s[5] == 0x2f && s[6] == 0x2f {
            Some((Scheme::Ldap, 7))
        } else if s.len() >= 8 && s[5] == 0x3a && s[6] == 0x2f && s[7] == 0x2f {
            if s[4] == 0x73 {
                Some((Scheme::Ldaps, 8))
            } else if s[4] == 0x69 {
                Some((Scheme::Ldapi, 8))
            } else {
                None
            }
        } else {
            None
        }
    } else {
        None
    }
}

/// The position of the first `/` from `i` on, or the end of the text.
pub open spec fn authority_end(s: Seq<u8>, i: int) -> int
    decreases s.len() - i,
{
    if 0 <= i < s.len() && s[i] != 0x2f {
        authority_end(s, i + 1)
    } else {
        i
    }
}

/// The position of the last `:` in `from..end`, if there is one.
pub open spec fn last_colon(s: Seq<u8>, from: int, end: int) -> Option<int>
    decreases end - from,
{
    if end <= from {
        None
    } else if s[end - 1] == 0x3a {
        Some(end - 1)
    } else {
        last_colon(s, from, end - 1)
    }
}

/// The number that the digits in `i..end` stand for, behind the digits that
/// gave `acc`, if they are digits and the number is a port.
pub open spec fn port_of(s: Seq<u8>, i: int, end: int, acc: nat) -> Option<nat>
    decreases end - i,
{
    if i >= end {
        Some(acc)
    } else if is_digit(s[i]) && acc * 10 + (s[i] - 0x30) <= 0xffff {
        port_of(s, i + 1, end, (acc * 10 + (s[i] - 0x30)) as nat)
    } else {
        None
    }
}

/// The octets that a percent-encoded text stands for, behind the octets
/// `acc`: `%` and two hexadecimal digits give one octet.
pub open spec fn percent_decoded(s: Seq<u8>, i: int, acc: Seq<u8>) -> Option<Seq<u8>>
    decreases s.len() - i,
{
    if i < 0 || i >= s.len() {
        Some(acc)
    } else if s[i] == 0x25 {
        if i + 2 < s.len() && is_hex(s[i + 1]) && is_hex(s[i + 2]) {
            percent_decoded(s, i + 3, acc.push((hex_value(s[i + 1]) * 16 + hex_value(s[i + 2])) as u8))
        } else {
            None
        }
    } else {
        percent_decoded(s, i + 1, acc.push(s[i]))
    }
}

/// Where the host ends in the authority `from..end`, and the port: the port
/// stands behind the last `:`, unless the authority ends with `]`.
pub open spec fn host_and_port(s: Seq<u8>, from: int, end: int, default: u16) -> Option<
    (int, u16),
> {
    if from < end && s[end - 1] == 0x5d {
        Some((end, default))
    } else {
        match last_colon(s, from, end) {
            None => Some((end, default)),
            Some(colon) => if colon + 1 < end {
                match port_of(s, colon + 1, end, 0) {
                    Some(port) => Some((colon, port as u16)),
                    None => None,
                }
            } else {
                None
            },
        }
    }
}

/// The address that a text stands for. The host, or the path of the
/// socket, must not be empty; what follows the first `/` behind a host is
/// not looked at.
pub open spec fn url_of(s: Seq<u8>) -> Option<UrlModel> {
    match scheme_of(s) {
        None => None,
        Some((Scheme::Ldapi, at)) => match percent_decoded(s, at, Seq::empty()) {
            Some(path) => if path.len() > 0 && text_of(path).is_some() {
                Some(UrlModel { scheme: Scheme::Ldapi, host: text_of(path).unwrap(), port: 0 })
            } else {
                None
            },
            None => None,
        },
        Some((scheme, at)) => {
            let end = authority_end(s, at);
            let default = if scheme == Scheme::Ldaps {
                LDAPS_PORT
            } else {
                LDAP_PORT
            };
            match host_and_port(s, at, end, default) {
                Some((host_end, port)) => {
                    let host = s.subrange(at, host_end);
                    if host.len() > 0 && text_of(host).is_some() {
                        Some(UrlModel { scheme, host: text_of(host).unwrap(), port })
                    } else {
                        None
                    }
                },
                None => None,
            }
        },
    }
}

fn read_scheme(s: &[u8]) -> (r: Option<(Scheme, usize)>)
    ensures
        match scheme_of(s@) {
            Some(found) => r matches Some(got) && got.0 == found.0 && got.1 == found.1,
            None => r.is_none(),
        },
        r matches Some(got) ==> got.1 <= s.len(),
{
    if s.len() >= 7 && s[0] == 0x6c && s[1] == 0x64 && s[2] == 0x61 && s[3] == 0x70 {
        if s[4] == 0x3a && s[5] == 0x2f && s[6] == 0x2f {
            Some((Scheme::Ldap, 7))
        } else if s.len() >= 8 && s[5] == 0x3a && s[6] == 0x2f && s[7] == 0x2f {
            if s[4] == 0x73 {
                Some((Scheme::Ldaps, 8))
            } else if s[4] == 0x69 {
                Some((Scheme::Ldapi, 8))
            } else {
                None
            }
        } else {
            None
        }
    } else {
        None
    }
}

fn read_percent_decoded(s: &[u8], from: usize) -> (r: Option<Vec<u8>>)
    requires
        from <= s.len(),
    ensures
        match percent_decoded(s@, from as int, Seq::empty()) {
            Some(octets) => r matches Some(got) && got@ == octets,
            None => r.is_none(),
        },
{
    let mut acc: Vec<u8> = Vec::new();
    let mut i: usize = from;
    while i < s.len()
        invariant
            from <= i <= s.len(),
            percent_decoded(s@, from as int, Seq::empty()) == percent_decoded(s@, i as int, acc@),
        decreases s.len() - i,
    {
        if s[i] == 0x25 {
            if s.len() - i <= 2 {
                return None;
            }
            match (hex_digit(s[i + 1]), hex_digit(s[i + 2])) {
                (Some(high), Some(low)) => {
                    acc.push(high * 16 + low);
                    i += 3;
                },
                _ => {
                    return None;
                },
            }
        } else {
            acc.push(s[i]);
            i += 1;
        }
    }
    Some(acc)
}

fn read_authority_end(s: &[u8], from: usize) -> (end: usize)
    requires
        from <= s.len(),
    ensures
        end == authority_end(s@, from as int),
        from <= end <= s.len(),
{
    let mut i: usize = from;
    while i < s.len() && s[i] != 0x2f
        invariant
            from <= i <= s.len(),
            authority_end(s@, from as int) == authority_end(s@, i as int),
        decreases s.len() - i,
    {
        i += 1;
    }
    i
}

fn read_last_colon(s: &[u8], from: usize, end: usize) -> (r: Option<usize>)
    requires
        from <= end <= s.len(),
    ensures
        match last_colon(s@, from as int, end as int) {
            Some(at) => r == Some(at as usize) && from <= at < end,
            None => r.is_none(),
        },
{
    let mut i: usize = end;
    while i > from
        invariant
            from <= i <= end <= s.len(),
            last_colon(s@, from as int, end as int) == last_colon(s@, from as int, i as int),
        decreases i,
    {
        if s[i - 1] == 0x3a {
            return Some(i - 1);
        }
        i -= 1;
    }
    None
}

fn read_port(s: &[u8], from: usize, end: usize) -> (r: Option<u16>)
    requires
        from <= end <= s.len(),
    ensures
        match port_of(s@, from as int, end as int, 0) {
            Some(port) => r == Some(port as u16) && port <= 0xffff,
            None => r.is_none(),
        },
{
    let mut acc: u32 = 0;
    let mut i: usize = from;
    while i < end
        invariant
            from <= i <= end <= s.len(),
            acc <= 0xffff,
            port_of(s@, from as int, end as int, 0) == port_of(s@, i as int, end as int, acc as nat),
        decreases end - i,
    {
        let c = s[i];
        if !(0x30 <= c && c <= 0x39) {
            return None;
        }
        let next: u32 = acc * 10 + (c - 0x30) as u32;
        if next > 0xffff {
            return None;
        }
        acc = next;
        i += 1;
    }
    Some(acc as u16)
}

/// Reads the address of a server.
pub fn parse_url(url: &str) -> (r: Option<LdapUrl>)
    ensures
        match url_of(url.spec_bytes()) {
            Some(model) => r matches Some(found) && found@ == model,
            None => r.is_none(),
        },
{
    let s = url.as_bytes();
    let (scheme, at) = match read_scheme(s) {
        Some(found) => found,
        None => {
            return None;
        },
    };
    if scheme == Scheme::Ldapi {
        let path = match read_percent_decoded(s, at) {
            Some(path) => path,
            None => {
                return None;
            },
        };
        if path.len() == 0 {
            return None;
        }
        return match utf8_string(path) {
            Some(host) => Some(LdapUrl { scheme, host, port: 0 }),
            None => None,
        };
    }
    let end = read_authority_end(s, at);
    let default = if scheme == Scheme::Ldaps {
        LDAPS_PORT
    } else {
        LDAP_PORT
    };
    let (host_end, port) = if at < end && s[end - 1] == 0x5d {
        (end, default)
    } else {
        match read_last_colon(s, at, end) {
            None => (end, default),
            Some(colon) => {
                if colon + 1 < end {
                    match read_port(s, colon + 1, end) {
                        Some(port) => (colon, port),
                        None => {
                            return None;
                        },
                    }
                } else {
                    return None;
                }
            },
        }
    };
    if host_end == at {
        return None;
    }
    match utf8_string(copy_range(s, at, host_end)) {
        Some(host) => Some(LdapUrl { scheme, host, port }),
        None => None,
    }
}

} // verus!
