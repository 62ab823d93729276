//! Where a stream is relayed to, as it is written on a command line:
//! `udp://host:port` or `https://host[:port]`.
use crate::number::parse_unsigned;
use crate::number::u16_from_str_radix;
use core::num::ParseIntError;
use vstd::prelude::*;
use vstd::string::StringExecFns;

verus! {

/// Port of a collector that is named without one.
pub const DEFAULT_HTTPS_PORT: u16 = 443;

/// Number of characters in the mark `://` that closes the protocol.
pub const MARK_LEN: usize = 3;

/// A destination for the stream.
#[derive(Debug, Clone, PartialEq, Eq)]
pub enum Destination {
    /// Plain datagrams to the socket address that this text names.
    Udp(String),
    /// Envelopes over TLS to a host and port.
    Https(String, u16),
}

/// Why a text names no destination.
#[derive(Debug, Clone)]
pub enum DestinationError {
    /// The text holds no `://`.
    NotUrl,
    /// The protocol in front of the `://` is neither `udp` nor `https`.
    UnknownProtocol(String),
    /// No host stands in front of the port.
    MissingHost,
    /// What follows the last colon is no port.
    InvalidPort(ParseIntError),
}

/// What parsing a text as a destination comes to.
pub ghost enum DestinationView {
    Udp(Seq<char>),
    Https(Seq<char>, u16),
    NotUrl,
    UnknownProtocol(Seq<char>),
    MissingHost,
    InvalidPort,
}

/// The outcome that a parser's result stands for.
pub open spec fn parsed(r: Result<Destination, DestinationError>) -> DestinationView {
    match r {
        Ok(Destination::Udp(addr)) => DestinationView::Udp(addr@),
        Ok(Destination::Https(host, port)) => DestinationView::Https(host@, port),
        Err(DestinationError::NotUrl) => DestinationView::NotUrl,
        Err(DestinationError::UnknownProtocol(name)) => DestinationView::UnknownProtocol(name@),
        Err(DestinationError::MissingHost) => DestinationView::MissingHost,
        Err(DestinationError::InvalidPort(_)) => DestinationView::InvalidPort,
    }
}

/// Whether the mark `://` stands at index `i` of `text`.
pub open spec fn mark_at(text: Seq<char>, i: int) -> bool {
    &&& 0 <= i
    &&& i + MARK_LEN <= text.len()
    &&& text[i] == ':'
    &&& text[i + 1] == '/'
    &&& text[i + 2] == '/'
}

/// The index of the first mark `://` in `text` at or behind index `from`.
pub open spec fn find_mark(text: Seq<char>, from: int) -> Option<int>
    decreases text.len() - from,
{
    if from < 0 || from + MARK_LEN > text.len() {
        None
    } else if mark_at(text, from) {
        Some(from)
    } else {
        find_mark(text, from + 1)
    }
}

/// The index of the last colon in `text`.
pub open spec fn last_colon(text: Seq<char>) -> Option<int>
    decreases text.len(),
{
    if text.len() == 0 {
        None
    } else if text.last() == ':' {
        Some(text.len() - 1)
    } else {
        last_colon(text.drop_last())
    }
}

/// Reads what follows `https://`: a host, and behind the last colon, if there
/// is one, a port in decimal. The port is judged before the host.
pub open spec fn parse_https(rest: Seq<char>) -> DestinationView {
    match last_colon(rest) {
        None => if rest.len() == 0 {
            DestinationView::MissingHost
        } else {
            DestinationView::Https(rest, DEFAULT_HTTPS_PORT)
        },
        Some(k) => match parse_unsigned(rest.skip(k + 1), 10, u16::MAX as nat) {
            None => DestinationView::InvalidPort,
            Some(port) => if k == 0 {
                DestinationView::MissingHost
            } else {
                DestinationView::Https(rest.take(k), port as u16)
            },
        },
    }
}

/// Reads `text` as a destination: the protocol in front of the first `://`
/// decides how what follows it is read.
pub open spec fn parse_destination(text: Seq<char>) -> DestinationView {
    match find_mark(text, 0) {
        None => DestinationView::NotUrl,
        Some(i) => {
            let protocol = text.take(i);
            let rest = text.skip(i + MARK_LEN);
            if protocol == seq!['u', 'd', 'p'] {
                DestinationView::Udp(rest)
            } else if protocol == seq!['h', 't', 't', 'p', 's'] {
                parse_https(rest)
            } else {
                DestinationView::UnknownProtocol(protocol)
            }
        },
    }
}

/// The characters of `text`, in a vector.
fn characters(text: &str) -> (chars: Vec<char>)
    ensures
        chars@ == text@,
{
    let mut chars: Vec<char> = Vec::new();
    for c in it: text.chars()
        invariant
            it.seq() == text@,
            chars@ == text@.take(it.index() as int),
    {
        let ghost before = chars@;
        chars.push(c);
        assert(chars@ =~= text@.take(it.index() + 1));
    }
    assert(text@.take(text@.len() as int) =~= text@);
    chars
}

/// Finds the first mark `://` among `chars`.
fn first_mark(chars: &Vec<char>) -> (found: Option<usize>)
    ensures
        match found {
            Some(i) => find_mark(chars@, 0) == Some(i as int) && mark_at(chars@, i as int),
            None => find_mark(chars@, 0) is None,
        },
{
    let n = chars.len();
    if n < MARK_LEN {
        return None;
    }
    let mut i: usize = 0;
    while i <= n - MARK_LEN
        invariant
            n == chars@.len(),
            n >= MARK_LEN,
            i <= n,
            find_mark(chars@, 0) == find_mark(chars@, i as int),
        decreases n - i,
    {
        if chars[i] == ':' && chars[i + 1] == '/' && chars[i + 2] == '/' {
            return Some(i);
        }
        i += 1;
    }
    None
}

/// Finds the last colon among the characters of `chars` from index `from` on.
fn last_colon_from(chars: &Vec<char>, from: usize) -> (found: Option<usize>)
    requires
        from <= chars@.len(),
    ensures
        match found {
            Some(k) => from <= k < chars@.len() && last_colon(chars@.skip(from as int)) == Some(
                k - from,
            ),
            None => last_colon(chars@.skip(from as int)) is None,
        },
{
    let ghost rest = chars@.skip(from as int);
    let mut j: usize = chars.len();
    assert(rest.take(rest.len() as int) =~= rest);
    while j > from
        invariant
            from <= j <= chars@.len(),
            rest == chars@.skip(from as int),
            last_colon(rest) == last_colon(rest.take(j - from)),
        decreases j,
    {
        let ghost head = rest.take(j - from);
        assert(head.last() == chars@[j - 1]);
        assert(head.drop_last() =~= rest.take(j - 1 - from));
        if chars[j - 1] == ':' {
            return Some(j - 1);
        }
        j -= 1;
    }
    None
}

impl Destination {
    /// Reads `udp://host:port` or `https://host[:port]`.
    pub fn from_str(addr: &str) -> (r: Result<Destination, DestinationError>)
        ensures
            parsed(r) == parse_destination(addr@),
    {
        let chars = characters(addr);
        let n = chars.len();
        let i = match first_mark(&chars) {
            Some(i) => i,
            None => {
                return Err(DestinationError::NotUrl);
            },
        };
        let ghost protocol = addr@.take(i as int);
        let ghost rest = addr@.skip(i + MARK_LEN);
        let from = i + MARK_LEN;
        assert(addr@.subrange(from as int, n as int) =~= rest);
        assert(addr@.subrange(0, i as int) =~= protocol);
        if i == 3 && chars[0] == 'u' && chars[1] == 'd' && chars[2] == 'p' {
            assert(protocol =~= seq!['u', 'd', 'p']);
            return Ok(Destination::Udp(String::from_str(addr.substring_char(from, n))));
        }
        let https = i == 5 && chars[0] == 'h' && chars[1] == 't' && chars[2] == 't' && chars[3]
            == 'p' && chars[4] == 's';
        if !https {
            assert(protocol != seq!['u', 'd', 'p']) by {
                if protocol == seq!['u', 'd', 'p'] {
                    assert(protocol.len() == 3);
                    assert(protocol[0] == 'u' && protocol[1] == 'd' && protocol[2] == 'p');
                }
            }
            assert(protocol != seq!['h', 't', 't', 'p', 's']) by {
                if protocol == seq!['h', 't', 't', 'p', 's'] {
                    assert(protocol.len() == 5);
                    assert(protocol[0] == 'h' && protocol[1] == 't' && protocol[2] == 't'
                        && protocol[3] == 'p' && protocol[4] == 's');
                }
            }
            return Err(
                DestinationError::UnknownProtocol(String::from_str(addr.substring_char(0, i))),
            );
        }
        assert(protocol =~= seq!['h', 't', 't', 'p', 's']);
        assert(protocol != seq!['u', 'd', 'p']) by {
            assert(protocol.len() == 5);
        }
        match last_colon_from(&chars, from) {
            None => {
                if from == n {
                    Err(DestinationError::MissingHost)
                } else {
                    let host = String::from_str(addr.substring_char(from, n));
                    Ok(Destination::Https(host, DEFAULT_HTTPS_PORT))
                }
            },
            Some(k) => {
                assert(addr@.subrange(k + 1, n as int) =~= rest.skip(k - from + 1));
                assert(addr@.subrange(from as int, k as int) =~= rest.take(k - from));
                match u16_from_str_radix(addr.substring_char(k + 1, n), 10) {
                    Err(e) => Err(DestinationError::InvalidPort(e)),
                    Ok(port) => {
                        if k == from {
                            Err(DestinationError::MissingHost)
                        } else {
                            let host = String::from_str(addr.substring_char(from, k));
                            Ok(Destination::Https(host, port))
                        }
                    },
                }
            },
        }
    }
}

} // verus!
