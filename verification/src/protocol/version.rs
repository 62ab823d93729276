//! Firmware versions: up to four numbers separated by dots.
use crate::number::decimal;
use crate::number::lemma_decimal_round_trip;
use crate::number::parse_unsigned;
use crate::number::push_char;
use crate::number::push_decimal;
use crate::number::u16_from_str_radix;
use crate::text::free_of;
use crate::text::join;
use crate::text::leading;
use crate::text::lemma_split_join;
use crate::text::split;
use crate::text::split_str;
use crate::text::str_views;
use core::num::ParseIntError;
use vstd::prelude::*;

verus! {

/// Number of components in a version.
pub const COMPONENTS: usize = 4;

/// A firmware version. Its view is the sequence of its four components.
#[derive(Debug, Clone, Copy)]
pub struct Version([u16; 4]);

impl View for Version {
    type V = Seq<u16>;

    closed spec fn view(&self) -> Seq<u16> {
        self.0@
    }
}

/// The component that `piece` stands for: a decimal number of at most 65535.
pub open spec fn component(piece: Seq<char>) -> Option<nat> {
    parse_unsigned(piece, 10, 65535)
}

/// Parses `text` as a version. The text is split at its dots and the first
/// four pieces are read as components, each of which must be one. Components
/// that are missing are zero; pieces beyond the fourth are not looked at.
pub open spec fn parse_version(text: Seq<char>) -> Option<Seq<u16>> {
    let seen = leading(split(text, '.'), COMPONENTS as nat);
    if exists|i: int| 0 <= i < seen.len() && component(#[trigger] seen[i]) is None {
        None
    } else {
        Some(
            Seq::new(
                COMPONENTS as nat,
                |i: int|
                    if i < seen.len() {
                        component(seen[i])->0 as u16
                    } else {
                        0u16
                    },
            ),
        )
    }
}

/// The decimal texts of `components`, in order.
pub open spec fn decimals(components: Seq<u16>) -> Seq<Seq<char>> {
    Seq::new(components.len(), |i: int| decimal(components[i] as nat))
}

/// The text form of the version with these components: their decimal
/// digits, with dots between them.
pub open spec fn format_version(components: Seq<u16>) -> Seq<char> {
    join(decimals(components), '.')
}

impl Version {
    /// Constructs a version from its four components.
    pub fn new(buf: [u16; 4]) -> (version: Version)
        ensures
            version@ == buf@,
    {
        Version(buf)
    }

    /// Parses the specified string into a version.
    pub fn from_str(v: &str) -> (r: Result<Version, ParseIntError>)
        ensures
            match r {
                Ok(version) => parse_version(v@) == Some(version@),
                Err(_) => parse_version(v@) is None,
            },
    {
        let parts = split_str(v, '.', COMPONENTS);
        let ghost seen = leading(split(v@, '.'), COMPONENTS as nat);
        let mut buf = [0u16; 4];
        let mut idx: usize = 0;
        while idx < parts.len()
            invariant
                idx <= parts.len() <= COMPONENTS,
                seen == leading(split(v@, '.'), COMPONENTS as nat),
                str_views(parts@) == seen,
                forall|j: int| 0 <= j < idx ==> component(#[trigger] seen[j]) == Some(buf@[j] as nat),
                forall|j: int| idx <= j < COMPONENTS ==> buf@[j] == 0,
            decreases parts.len() - idx,
        {
            assert(str_views(parts@)[idx as int] == parts@[idx as int]@);
            match u16_from_str_radix(parts[idx], 10) {
                Ok(n) => {
                    buf[idx] = n;
                },
                Err(e) => {
                    assert(component(seen[idx as int]) is None);
                    return Err(e);
                },
            }
            idx += 1;
        }
        let version = Version(buf);
        assert(version@ =~= parse_version(v@)->0);
        Ok(version)
    }

    /// The four components.
    pub fn components(&self) -> (buf: [u16; 4])
        ensures
            buf@ == self@,
    {
        self.0
    }

    /// The text form of the version, as in `1.2.3.4`.
    pub fn to_string(&self) -> (text: String)
        ensures
            text@ == format_version(self@),
    {
        let mut text = String::new();
        let ghost pieces = decimals(self@);
        let mut i: usize = 0;
        assert(pieces.take(0) =~= Seq::<Seq<char>>::empty());
        while i < COMPONENTS
            invariant
                i <= COMPONENTS,
                pieces == decimals(self@),
                pieces.len() == COMPONENTS,
                text@ == join(pieces.take(i as int), '.'),
            decreases COMPONENTS - i,
        {
            if i > 0 {
                push_char(&mut text, '.');
            }
            let ghost before = text@;
            push_decimal(&mut text, self.0[i]);
            proof {
                let next = pieces.take(i + 1);
                assert(next.drop_last() =~= pieces.take(i as int));
                assert(next.last() == decimal(self@[i as int] as nat));
                if i == 0 {
                    assert(before =~= Seq::<char>::empty());
                    assert(text@ =~= next.last());
                }
            }
            i += 1;
        }
        assert(pieces.take(COMPONENTS as int) =~= pieces);
        text
    }
}

/// Formatting a version and parsing the text gives the version back.
pub proof fn lemma_parse_format(version: Version)
    ensures
        parse_version(format_version(version@)) == Some(version@),
{
    let pieces = decimals(version@);
    assert forall|i: int| 0 <= i < pieces.len() implies free_of(#[trigger] pieces[i], '.') by {
        lemma_decimal_round_trip(version@[i] as nat);
    }
    lemma_split_join(pieces, '.');
    assert forall|i: int| 0 <= i < pieces.len() implies component(#[trigger] pieces[i]) == Some(
        version@[i] as nat,
    ) by {
        lemma_decimal_round_trip(version@[i] as nat);
    }
    assert(parse_version(format_version(version@))->0 =~= version@);
}

} // verus!
