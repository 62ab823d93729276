//! Hardware addresses in their usual text form: six octets in hexadecimal,
//! separated by colons.
use crate::number::digit;
use crate::number::digit_char;
use crate::number::digits_value;
use crate::number::lemma_digit_round_trip;
use crate::number::parse_unsigned;
use crate::number::push_char;
use crate::number::u8_from_str_radix;
use crate::text::free_of;
use crate::text::join;
use crate::text::leading;
use crate::text::lemma_split_join;
use crate::text::split;
use crate::text::split_str;
use crate::text::str_views;
use core::num::ParseIntError;
use core::str::FromStr;
use vstd::prelude::*;

verus! {

/// Number of octets in a hardware address.
pub const OCTETS: usize = 6;

/// An error that can occur during parsing a MAC address string.
#[derive(Debug, Clone)]
pub enum ParseError {
    /// Parsing of the MAC address contained an invalid digit.
    InvalidDigit(ParseIntError),
    /// The MAC address did not have the correct length.
    InvalidLength,
}

impl ParseError {
    /// The text that describes this error.
    pub fn message(&self) -> (text: &'static str)
        ensures
            text@ == match self {
                ParseError::InvalidDigit(_) => "invalid digit"@,
                ParseError::InvalidLength => "invalid length"@,
            },
    {
        match self {
            ParseError::InvalidDigit(_) => "invalid digit",
            ParseError::InvalidLength => "invalid length",
        }
    }

    /// The integer parser's error behind an invalid digit.
    pub fn source(&self) -> (cause: Option<&ParseIntError>)
        ensures
            cause == match self {
                ParseError::InvalidDigit(err) => Some(err),
                ParseError::InvalidLength => None,
            },
    {
        match self {
            ParseError::InvalidDigit(err) => Some(err),
            ParseError::InvalidLength => None,
        }
    }
}

/// MAC address. Its view is the sequence of its six octets.
#[derive(Debug, Clone, Copy)]
pub struct MacAddr([u8; 6]);

impl View for MacAddr {
    type V = Seq<u8>;

    closed spec fn view(&self) -> Seq<u8> {
        self.0@
    }
}

/// What parsing a text as a MAC address comes to.
pub ghost enum MacParse {
    /// The text is an address with these six octets.
    Address(Seq<u8>),
    /// One of the first six pieces of the text is not an octet.
    InvalidDigit,
    /// The text has fewer or more than six pieces.
    InvalidLength,
}

/// The octet that `piece` stands for: a hexadecimal number of at most 255.
pub open spec fn octet(piece: Seq<char>) -> Option<nat> {
    parse_unsigned(piece, 16, 255)
}

/// The octets that `pieces` stand for, each of which must be one.
pub open spec fn octets(pieces: Seq<Seq<char>>) -> Seq<u8> {
    Seq::new(pieces.len(), |i: int| octet(pieces[i])->0 as u8)
}

/// Parses `text` as a MAC address. The text is split at its colons. The pieces
/// are read from the left, and the first of the first six that is not an octet
/// makes the text invalid; after that, so does any number of pieces but six.
pub open spec fn parse_mac(text: Seq<char>) -> MacParse {
    let pieces = split(text, ':');
    let seen = leading(pieces, OCTETS as nat);
    if exists|i: int| 0 <= i < seen.len() && octet(#[trigger] seen[i]) is None {
        MacParse::InvalidDigit
    } else if pieces.len() != OCTETS {
        MacParse::InvalidLength
    } else {
        MacParse::Address(octets(pieces))
    }
}

/// The outcome that a parser's result stands for.
pub open spec fn parsed(r: Result<MacAddr, ParseError>) -> MacParse {
    match r {
        Ok(mac) => MacParse::Address(mac@),
        Err(ParseError::InvalidDigit(_)) => MacParse::InvalidDigit,
        Err(ParseError::InvalidLength) => MacParse::InvalidLength,
    }
}

/// The two hexadecimal digits that stand for `b`.
pub open spec fn hex_pair(b: u8, upper: bool) -> Seq<char> {
    seq![digit_char((b / 16) as nat, upper), digit_char((b % 16) as nat, upper)]
}

/// The digit pairs of `bytes`, in order.
pub open spec fn hex_pairs(bytes: Seq<u8>, upper: bool) -> Seq<Seq<char>> {
    Seq::new(bytes.len(), |i: int| hex_pair(bytes[i], upper))
}

/// The text form of the address with the octets `bytes`: two hexadecimal
/// digits for each octet, with colons between them.
pub open spec fn format_mac(bytes: Seq<u8>, upper: bool) -> Seq<char> {
    join(hex_pairs(bytes, upper), ':')
}

impl MacAddr {
    /// Constructs a new MAC address from the given fixed array.
    pub fn new(buf: [u8; 6]) -> (mac: MacAddr)
        ensures
            mac@ == buf@,
    {
        MacAddr(buf)
    }

    /// Parses the specified string into MAC address.
    pub fn from_str(s: &str) -> (r: Result<MacAddr, ParseError>)
        ensures
            parsed(r) == parse_mac(s@),
    {
        let parts = split_str(s, ':', OCTETS + 1);
        let ghost pieces = split(s@, ':');
        let ghost seen = leading(pieces, OCTETS as nat);
        let mut buf = [0u8; 6];
        let mut idx: usize = 0;
        while idx < parts.len() && idx < OCTETS
            invariant
                idx <= parts.len(),
                idx <= OCTETS,
                pieces == split(s@, ':'),
                str_views(parts@) == leading(pieces, (OCTETS + 1) as nat),
                seen == leading(pieces, OCTETS as nat),
                forall|j: int| 0 <= j < idx ==> octet(#[trigger] seen[j]) == Some(buf@[j] as nat),
            decreases OCTETS - idx,
        {
            assert(str_views(parts@)[idx as int] == parts@[idx as int]@);
            assert(seen[idx as int] == parts@[idx as int]@);
            match u8_from_str_radix(parts[idx], 16) {
                Ok(v) => {
                    buf[idx] = v;
                },
                Err(e) => {
                    assert(octet(seen[idx as int]) is None);
                    return Err(ParseError::InvalidDigit(e));
                },
            }
            idx += 1;
        }
        assert(str_views(parts@).len() == parts.len());
        if parts.len() != OCTETS {
            return Err(ParseError::InvalidLength);
        }
        let mac = MacAddr(buf);
        assert(mac@ =~= octets(pieces));
        Ok(mac)
    }

    /// The text form of the address, with the letters among its digits in
    /// upper or lower case.
    pub fn format(&self, upper: bool) -> (text: String)
        ensures
            text@ == format_mac(self@, upper),
    {
        let mut text = String::new();
        let ghost pairs = hex_pairs(self@, upper);
        let mut i: usize = 0;
        assert(pairs.take(0) =~= Seq::<Seq<char>>::empty());
        while i < OCTETS
            invariant
                i <= OCTETS,
                pairs == hex_pairs(self@, upper),
                pairs.len() == OCTETS,
                text@ == join(pairs.take(i as int), ':'),
            decreases OCTETS - i,
        {
            if i > 0 {
                push_char(&mut text, ':');
            }
            let b = self.0[i];
            let ghost before = text@;
            push_char(&mut text, digit(b / 16, upper));
            push_char(&mut text, digit(b % 16, upper));
            proof {
                let next = pairs.take(i + 1);
                assert(next.drop_last() =~= pairs.take(i as int));
                assert(next.last() == hex_pair(b, upper));
                assert(text@ =~= before + hex_pair(b, upper));
                if i == 0 {
                    assert(before =~= Seq::<char>::empty());
                }
            }
            i += 1;
        }
        assert(pairs.take(OCTETS as int) =~= pairs);
        text
    }

    /// The text form of the address in lower case, as in `dc:a9:04:97:9d:9b`.
    pub fn to_string(&self) -> (text: String)
        ensures
            text@ == format_mac(self@, false),
    {
        self.format(false)
    }

    /// The text form of the address in lower case.
    pub fn to_lower_hex(&self) -> (text: String)
        ensures
            text@ == format_mac(self@, false),
    {
        self.format(false)
    }

    /// The text form of the address in upper case, as in `DC:A9:04:97:9D:9B`.
    pub fn to_upper_hex(&self) -> (text: String)
        ensures
            text@ == format_mac(self@, true),
    {
        self.format(true)
    }

    /// Returns the underlying byte array.
    pub fn as_bytes(&self) -> (bytes: [u8; 6])
        ensures
            bytes@ == self@,
    {
        self.0
    }
}

/// A pair of hexadecimal digits reads back as the octet that it was written
/// for, and holds no colon.
pub proof fn lemma_octet_of_hex_pair(b: u8, upper: bool)
    ensures
        octet(hex_pair(b, upper)) == Some(b as nat),
        free_of(hex_pair(b, upper), ':'),
{
    let high = (b / 16) as nat;
    let low = (b % 16) as nat;
    let pair = hex_pair(b, upper);
    lemma_digit_round_trip(high, upper, 16);
    lemma_digit_round_trip(low, upper, 16);
    assert(pair.drop_last() =~= seq![digit_char(high, upper)]);
    assert(pair.drop_last().drop_last() =~= Seq::<char>::empty());
    assert(digits_value(pair.drop_last(), 16) == Some(high)) by {
        reveal_with_fuel(digits_value, 2);
    }
    assert(digits_value(pair, 16) == Some(high * 16 + low));
}

/// Formatting an address and parsing the text gives the address back,
/// whichever case the letters among its digits were written in.
pub proof fn lemma_parse_format(mac: MacAddr, upper: bool)
    ensures
        parse_mac(format_mac(mac@, upper)) == MacParse::Address(mac@),
{
    let pairs = hex_pairs(mac@, upper);
    assert forall|i: int| 0 <= i < pairs.len() implies free_of(#[trigger] pairs[i], ':') by {
        lemma_octet_of_hex_pair(mac@[i], upper);
    }
    lemma_split_join(pairs, ':');
    assert forall|i: int| 0 <= i < pairs.len() implies octet(#[trigger] pairs[i]) == Some(
        mac@[i] as nat,
    ) by {
        lemma_octet_of_hex_pair(mac@[i], upper);
    }
    assert(octets(pairs) =~= mac@);
}

impl FromStr for MacAddr {
    type Err = ParseError;

    fn from_str(s: &str) -> (r: Result<MacAddr, ParseError>)
        ensures
            parsed(r) == parse_mac(s@),
    {
        MacAddr::from_str(s)
    }
}

} // verus!
