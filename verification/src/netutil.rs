//! Network addresses written as `host:port`: parsing, the value type and its
//! conversions.

use crate::lemmas::{lemma_tokens_are_tokens, lemma_tokens_nonempty_iff};
use crate::strutil::{
    clean_split, has_content, is_token, num_or, numeral, push_numeral, to_num_u16, to_num_u8,
    tokens, views,
};
use vstd::prelude::*;

verus! {

/// Why an address text was refused.
#[derive(Debug, Clone, Copy, PartialEq, Eq, Structural)]
pub enum AddrError {
    /// The text holds no token: nothing but delimiters and white space.
    EmptyInput,
    /// The host has fewer than four segments between dots.
    MalformedHost,
}

/// The host and the port that the text `s` stands for: the first token of its clean
/// split on `:`, and the number that the second token denotes. `default_port` takes
/// the place of a second token that is missing or is no port number. A text without
/// tokens stands for nothing.
pub open spec fn host_port(s: Seq<char>, default_port: u16) -> Option<(Seq<char>, u16)> {
    let t = tokens(s, ':');
    if t.len() == 0 {
        None
    } else if t.len() == 1 {
        Some((t[0], default_port))
    } else {
        Some((t[0], num_or(t[1], 65535, default_port as nat) as u16))
    }
}

/// The text of an address: `host:port`, or the host alone where no port is given.
pub open spec fn address_text(host: Seq<char>, port: Option<u16>) -> Seq<char> {
    match port {
        Some(port) => host + seq![':'] + numeral(port as nat),
        None => host,
    }
}

/// Parses the `host:port` text `s`; `default_port` is the port where `s` names none
/// that is valid. The text is refused only where it holds nothing but `:` and white
/// space.
pub fn to_host_port(s: &str, default_port: u16) -> (r: Result<(String, u16), AddrError>)
    ensures
        r is Ok <==> has_content(s@, ':'),
        match r {
            Ok((host, port)) => host_port(s@, default_port) == Some((host@, port)),
            Err(e) => e == AddrError::EmptyInput && host_port(s@, default_port) is None,
        },
{
    let parts = clean_split(s, ':');
    proof {
        lemma_tokens_nonempty_iff(s@, ':');
    }
    assert(views(parts@).len() == parts@.len());
    if parts.len() == 0 {
        Err(AddrError::EmptyInput)
    } else if parts.len() == 1 {
        assert(views(parts@)[0] == parts@[0]@);
        Ok((parts[0].to_owned(), default_port))
    } else {
        assert(views(parts@)[0] == parts@[0]@);
        assert(views(parts@)[1] == parts@[1]@);
        Ok((parts[0].to_owned(), to_num_u16(parts[1], default_port)))
    }
}

/// The four octets that the dotted text `host` stands for: what the first four
/// tokens of its clean split on `.` denote, with 0 for a token that is no number up
/// to 255. A text with fewer than four tokens stands for none.
pub open spec fn ipv4_octets(host: Seq<char>) -> Option<(u8, u8, u8, u8)> {
    let t = tokens(host, '.');
    if t.len() < 4 {
        None
    } else {
        Some(
            (
                num_or(t[0], 255, 0) as u8,
                num_or(t[1], 255, 0) as u8,
                num_or(t[2], 255, 0) as u8,
                num_or(t[3], 255, 0) as u8,
            ),
        )
    }
}

/// An IPv4 address with a port.
#[derive(Debug, Clone, Copy, PartialEq, Eq)]
pub struct SockAddr {
    /// The four octets of the address, first to last.
    pub ip: (u8, u8, u8, u8),
    /// The port number.
    pub port: u16,
}

/// What a `HostAddr` holds.
pub struct AddrView {
    /// The host name or IP address.
    pub host: Seq<char>,
    /// The port number, where one is given.
    pub port: Option<u16>,
}

impl AddrView {
    /// An address is either blank, with neither host nor port, or has a port and a
    /// host that is a token of a clean split on `:`.
    pub open spec fn wf(self) -> bool {
        match self.port {
            None => self.host.len() == 0,
            Some(_) => is_token(self.host, ':'),
        }
    }

    /// The port, or 0 where none is given.
    pub open spec fn port_or_zero(self) -> u16 {
        match self.port {
            Some(port) => port,
            None => 0,
        }
    }

    /// The text of the address.
    pub open spec fn text(self) -> Seq<char> {
        address_text(self.host, self.port)
    }
}

/// A host name or IP address, with a port number where one is given.
#[derive(Debug)]
pub struct HostAddr {
    host: String,
    port: Option<u16>,
}

impl View for HostAddr {
    type V = AddrView;

    closed spec fn view(&self) -> AddrView {
        AddrView { host: self.host@, port: self.port }
    }
}

impl HostAddr {
    /// The blank address: an empty host and no port.
    pub fn new() -> (addr: HostAddr)
        ensures
            addr@.host == Seq::<char>::empty(),
            addr@.port is None,
            addr@.wf(),
    {
        HostAddr { host: String::new(), port: None }
    }

    /// The address that the `host:port` text `s` stands for. Its port is always
    /// given: it is `default_port` where `s` names none that is valid.
    pub fn with_host_port(s: &str, default_port: u16) -> (r: Result<HostAddr, AddrError>)
        ensures
            r is Ok <==> has_content(s@, ':'),
            match r {
                Ok(addr) => {
                    &&& addr@.port is Some
                    &&& host_port(s@, default_port) == Some((addr@.host, addr@.port->0))
                    &&& addr@.wf()
                },
                Err(e) => e == AddrError::EmptyInput && host_port(s@, default_port) is None,
            },
    {
        proof {
            lemma_tokens_are_tokens(s@, ':');
        }
        match to_host_port(s, default_port) {
            Ok((host, port)) => Ok(HostAddr { host, port: Some(port) }),
            Err(e) => Err(e),
        }
    }

    /// A copy of the host.
    pub fn get_host(&self) -> (host: String)
        ensures
            host@ == self@.host,
    {
        self.host.clone()
    }

    /// Whether a port is given.
    pub fn has_port(&self) -> (b: bool)
        ensures
            b == self@.port is Some,
    {
        self.port.is_some()
    }

    /// The port, or 0 where none is given.
    pub fn get_port(&self) -> (port: u16)
        ensures
            port == self@.port_or_zero(),
    {
        match self.port {
            Some(port) => port,
            None => 0,
        }
    }

    /// The host as the four octets of an IPv4 address. A host with fewer than four
    /// segments is refused; a segment that is no number up to 255 counts as 0, and
    /// segments after the fourth are ignored.
    pub fn get_ip_v4(&self) -> (r: Result<(u8, u8, u8, u8), AddrError>)
        ensures
            r is Ok <==> tokens(self@.host, '.').len() >= 4,
            match r {
                Ok(ip) => ipv4_octets(self@.host) == Some(ip),
                Err(e) => e == AddrError::MalformedHost && ipv4_octets(self@.host) is None,
            },
    {
        let parts = clean_split(self.host.as_str(), '.');
        assert(views(parts@).len() == parts@.len());
        if parts.len() < 4 {
            Err(AddrError::MalformedHost)
        } else {
            assert(views(parts@)[0] == parts@[0]@);
            assert(views(parts@)[1] == parts@[1]@);
            assert(views(parts@)[2] == parts@[2]@);
            assert(views(parts@)[3] == parts@[3]@);
            Ok(
                (
                    to_num_u8(parts[0], 0),
                    to_num_u8(parts[1], 0),
                    to_num_u8(parts[2], 0),
                    to_num_u8(parts[3], 0),
                ),
            )
        }
    }

    /// The IPv4 address of the host together with the port, or with 0 where none is
    /// given.
    pub fn get_sock_addr(&self) -> (r: Result<SockAddr, AddrError>)
        ensures
            r is Ok <==> tokens(self@.host, '.').len() >= 4,
            match r {
                Ok(addr) => ipv4_octets(self@.host) == Some(addr.ip) && addr.port
                    == self@.port_or_zero(),
                Err(e) => e == AddrError::MalformedHost && ipv4_octets(self@.host) is None,
            },
    {
        match self.get_ip_v4() {
            Ok(ip) => Ok(SockAddr { ip, port: self.get_port() }),
            Err(e) => Err(e),
        }
    }

    /// The address as text: `host:port`, or the host alone where no port is given.
    pub fn to_string(&self) -> (text: String)
        ensures
            text@ == self@.text(),
    {
        format_host_port(self.host.as_str(), self.port)
    }
}

/// Writes an address as text: `host:port`, or the host alone where no port is given.
pub fn format_host_port(host: &str, port: Option<u16>) -> (text: String)
    ensures
        text@ == address_text(host@, port),
{
    let mut text = host.to_owned();
    match port {
        Some(port) => {
            proof {
                reveal_strlit(":");
            }
            text.append(":");
            assert(":"@ =~= seq![':']);
            push_numeral(&mut text, port);
        },
        None => {},
    }
    text
}

} // verus!
