//! Splitting text and bytes at a separator.
use core::str::Utf8Error;
use vstd::prelude::*;
use vstd::utf8::decode_utf8;
use vstd::utf8::valid_utf8;

verus! {

/// The error that the standard UTF-8 check returns. Nothing is known of its
/// contents here.
#[verifier::external_type_specification]
#[verifier::external_body]
pub struct ExUtf8Error(core::str::Utf8Error);

/// Calls `core::str::from_utf8`.
///
/// Trusted: the call succeeds exactly on bytes that are valid UTF-8, and the
/// string slice that it returns holds the characters that those bytes encode.
#[verifier::external_body]
pub(crate) fn str_from_utf8<'a>(bytes: &'a [u8]) -> (r: Result<&'a str, Utf8Error>)
    ensures
        r is Ok <==> valid_utf8(bytes@),
        r matches Ok(text) ==> text@ == decode_utf8(bytes@),
{
    core::str::from_utf8(bytes)
}

/// The pieces of `s` between the occurrences of `sep`: always at least one
/// piece, and one more than there are separators.
pub open spec fn split<T>(s: Seq<T>, sep: T) -> Seq<Seq<T>>
    decreases s.len(),
{
    if s.len() == 0 {
        seq![Seq::empty()]
    } else {
        let before = split(s.drop_last(), sep);
        if s.last() == sep {
            before.push(Seq::empty())
        } else {
            before.update(before.len() - 1, before.last().push(s.last()))
        }
    }
}

/// The first `limit` of `pieces`, or all of them where there are fewer.
pub open spec fn leading<T>(pieces: Seq<Seq<T>>, limit: nat) -> Seq<Seq<T>> {
    if pieces.len() <= limit {
        pieces
    } else {
        pieces.take(limit as int)
    }
}

/// The texts that a sequence of string slices holds.
pub open spec fn str_views(parts: Seq<&str>) -> Seq<Seq<char>> {
    Seq::new(parts.len(), |i: int| parts[i]@)
}

/// The bytes that a sequence of slices holds.
pub open spec fn slice_views(parts: Seq<&[u8]>) -> Seq<Seq<u8>> {
    Seq::new(parts.len(), |i: int| parts[i]@)
}

/// Splitting always yields at least one piece.
pub proof fn lemma_split_nonempty<T>(s: Seq<T>, sep: T)
    ensures
        split(s, sep).len() >= 1,
    decreases s.len(),
{
    if s.len() > 0 {
        lemma_split_nonempty(s.drop_last(), sep);
    }
}

/// Splitting one more element: a separator opens a new, empty piece; any
/// other element extends the last piece.
pub proof fn lemma_split_step<T>(s: Seq<T>, sep: T, j: int)
    requires
        0 <= j < s.len(),
    ensures
        split(s.take(j), sep).len() >= 1,
        split(s.take(j + 1), sep) == if s[j] == sep {
            split(s.take(j), sep).push(Seq::empty())
        } else {
            split(s.take(j), sep).update(
                split(s.take(j), sep).len() - 1,
                split(s.take(j), sep).last().push(s[j]),
            )
        },
{
    lemma_split_nonempty(s.take(j), sep);
    assert(s.take(j + 1).drop_last() =~= s.take(j));
}

/// The pieces of a prefix of `s`, but for the last of them, are the first
/// pieces of `s`: what follows a piece's closing separator does not change it.
pub proof fn lemma_split_prefix<T>(s: Seq<T>, sep: T, j: int)
    requires
        0 <= j <= s.len(),
    ensures
        1 <= split(s.take(j), sep).len() <= split(s, sep).len(),
        split(s, sep).take(split(s.take(j), sep).len() - 1) == split(s.take(j), sep).drop_last(),
    decreases s.len() - j,
{
    lemma_split_nonempty(s.take(j), sep);
    if j == s.len() {
        assert(s.take(j) =~= s);
        assert(split(s, sep).take(split(s, sep).len() - 1) =~= split(s, sep).drop_last());
    } else {
        let shorter = s.take(j);
        let longer = s.take(j + 1);
        assert(longer.drop_last() =~= shorter);
        lemma_split_prefix(s, sep, j + 1);
        let a = split(shorter, sep);
        let b = split(longer, sep);
        assert(b.take(a.len() - 1) =~= a.drop_last());
        assert(split(s, sep).take(a.len() - 1) =~= split(s, sep).take(b.len() - 1).take(
            a.len() - 1,
        ));
    }
}

/// The pieces, one after another, with `sep` between each two of them.
pub open spec fn join<T>(pieces: Seq<Seq<T>>, sep: T) -> Seq<T>
    decreases pieces.len(),
{
    if pieces.len() == 0 {
        Seq::empty()
    } else if pieces.len() == 1 {
        pieces[0]
    } else {
        join(pieces.drop_last(), sep).push(sep) + pieces.last()
    }
}

/// Whether `sep` occurs nowhere in `piece`.
pub open spec fn free_of<T>(piece: Seq<T>, sep: T) -> bool {
    forall|j: int| 0 <= j < piece.len() ==> piece[j] != sep
}

/// No piece of a split text holds the separator.
pub proof fn lemma_split_pieces_free<T>(s: Seq<T>, sep: T)
    ensures
        forall|i: int| 0 <= i < split(s, sep).len() ==> free_of(#[trigger] split(s, sep)[i], sep),
    decreases s.len(),
{
    if s.len() > 0 {
        lemma_split_pieces_free(s.drop_last(), sep);
        lemma_split_nonempty(s.drop_last(), sep);
    }
}

/// Joining the pieces of a split text gives back the text.
pub proof fn lemma_join_split<T>(s: Seq<T>, sep: T)
    ensures
        join(split(s, sep), sep) == s,
    decreases s.len(),
{
    if s.len() == 0 {
        assert(join(split(s, sep), sep) =~= s);
    } else {
        let shorter = s.drop_last();
        let before = split(shorter, sep);
        let after = split(s, sep);
        lemma_join_split(shorter, sep);
        lemma_split_nonempty(shorter, sep);
        if s.last() == sep {
            assert(after.drop_last() =~= before);
            assert(join(after, sep) =~= shorter.push(sep) + Seq::<T>::empty());
        } else if before.len() == 1 {
            assert(join(after, sep) =~= shorter.push(s.last()));
        } else {
            assert(after.drop_last() =~= before.drop_last());
            assert(join(after, sep) =~= join(before, sep).push(s.last()));
        }
        assert(shorter.push(s.last()) =~= s);
    }
}

/// Text without a separator, appended to any text, extends that text's last
/// piece.
pub proof fn lemma_split_append<T>(s: Seq<T>, tail: Seq<T>, sep: T)
    requires
        free_of(tail, sep),
    ensures
        split(s, sep).len() >= 1,
        split(s + tail, sep) == split(s, sep).update(
            split(s, sep).len() - 1,
            split(s, sep).last() + tail,
        ),
    decreases tail.len(),
{
    lemma_split_nonempty(s, sep);
    let pieces = split(s, sep);
    if tail.len() == 0 {
        assert(s + tail =~= s);
        assert(pieces.last() + tail =~= pieces.last());
        assert(pieces.update(pieces.len() - 1, pieces.last()) =~= pieces);
    } else {
        let shorter = tail.drop_last();
        lemma_split_append(s, shorter, sep);
        assert((s + tail).drop_last() =~= s + shorter);
        assert((pieces.last() + shorter).push(tail.last()) =~= pieces.last() + tail);
        assert(split(s + tail, sep) =~= pieces.update(pieces.len() - 1, pieces.last() + tail));
    }
}

/// Splitting what was joined gives back the pieces, as long as there is at
/// least one of them and none holds the separator.
pub proof fn lemma_split_join<T>(pieces: Seq<Seq<T>>, sep: T)
    requires
        pieces.len() >= 1,
        forall|i: int| 0 <= i < pieces.len() ==> free_of(#[trigger] pieces[i], sep),
    ensures
        split(join(pieces, sep), sep) == pieces,
    decreases pieces.len(),
{
    let empty = Seq::<T>::empty();
    if pieces.len() == 1 {
        lemma_split_append(empty, pieces[0], sep);
        assert(empty + pieces[0] =~= pieces[0]);
        assert(split(empty, sep) =~= seq![empty]);
        assert(seq![empty].update(0, empty + pieces[0]) =~= pieces);
    } else {
        let front = pieces.drop_last();
        let joined = join(front, sep);
        assert forall|i: int| 0 <= i < front.len() implies free_of(#[trigger] front[i], sep) by {
            assert(front[i] == pieces[i]);
        }
        lemma_split_join(front, sep);
        let opened = joined.push(sep);
        assert(opened.drop_last() =~= joined);
        assert(split(opened, sep) == front.push(empty));
        lemma_split_append(opened, pieces.last(), sep);
        assert(empty + pieces.last() =~= pieces.last());
        assert(front.push(empty).update(front.len() as int, pieces.last()) =~= pieces);
    }
}

/// Splits `s` at each `sep` and returns the first `limit` pieces, or all of
/// them where there are fewer.
pub fn split_str<'a>(s: &'a str, sep: char, limit: usize) -> (parts: Vec<&'a str>)
    ensures
        str_views(parts@) == leading(split(s@, sep), limit as nat),
{
    let mut parts: Vec<&'a str> = Vec::new();
    proof {
        lemma_split_nonempty(s@, sep);
    }
    if limit == 0 {
        assert(str_views(parts@) =~= leading(split(s@, sep), 0));
        return parts;
    }
    let n = s.unicode_len();
    let mut start: usize = 0;
    let mut i: usize = 0;
    assert(s@.take(0) =~= Seq::<char>::empty());
    assert(split(s@.take(0), sep) =~= str_views(parts@).push(s@.subrange(0, 0)));
    for c in it: s.chars()
        invariant
            i == it.index(),
            it.seq() == s@,
            n == s@.len(),
            start <= i,
            parts.len() < limit,
            split(s@.take(i as int), sep) == str_views(parts@).push(
                s@.subrange(start as int, i as int),
            ),
    {
        let ghost before = split(s@.take(i as int), sep);
        let ghost held = str_views(parts@);
        proof {
            lemma_split_step(s@, sep, i as int);
        }
        if c == sep {
            let piece = s.substring_char(start, i);
            parts.push(piece);
            proof {
                assert(str_views(parts@) =~= held.push(piece@));
                assert(s@.subrange(i + 1, i + 1) =~= Seq::<char>::empty());
                assert(split(s@.take(i + 1), sep) =~= str_views(parts@).push(
                    s@.subrange(i + 1, i + 1),
                ));
            }
            if parts.len() == limit {
                proof {
                    lemma_split_prefix(s@, sep, i + 1);
                    assert(split(s@.take(i + 1), sep).drop_last() =~= str_views(parts@));
                }
                return parts;
            }
            start = i + 1;
        } else {
            proof {
                assert(s@.subrange(start as int, i as int).push(c) =~= s@.subrange(
                    start as int,
                    i + 1,
                ));
                assert(split(s@.take(i + 1), sep) =~= held.push(
                    s@.subrange(start as int, i + 1),
                ));
            }
        }
        i += 1;
    }
    let ghost held = str_views(parts@);
    let piece = s.substring_char(start, n);
    parts.push(piece);
    proof {
        assert(s@.take(n as int) =~= s@);
        assert(str_views(parts@) =~= held.push(piece@));
    }
    parts
}

/// Splits `v` at each `sep` and returns the first `limit` pieces, or all of
/// them where there are fewer.
pub fn split_bytes<'a>(v: &'a [u8], sep: u8, limit: usize) -> (parts: Vec<&'a [u8]>)
    ensures
        slice_views(parts@) == leading(split(v@, sep), limit as nat),
{
    let mut parts: Vec<&'a [u8]> = Vec::new();
    proof {
        lemma_split_nonempty(v@, sep);
    }
    if limit == 0 {
        assert(slice_views(parts@) =~= leading(split(v@, sep), 0));
        return parts;
    }
    let n = v.len();
    let mut start: usize = 0;
    let mut i: usize = 0;
    assert(v@.take(0) =~= Seq::<u8>::empty());
    assert(split(v@.take(0), sep) =~= slice_views(parts@).push(v@.subrange(0, 0)));
    while i < n
        invariant
            n == v@.len(),
            start <= i <= n,
            parts.len() < limit,
            split(v@.take(i as int), sep) == slice_views(parts@).push(
                v@.subrange(start as int, i as int),
            ),
        decreases n - i,
    {
        let ghost held = slice_views(parts@);
        let b = v[i];
        proof {
            lemma_split_step(v@, sep, i as int);
        }
        if b == sep {
            let piece = &v[start..i];
            parts.push(piece);
            proof {
                assert(slice_views(parts@) =~= held.push(piece@));
                assert(v@.subrange(i + 1, i + 1) =~= Seq::<u8>::empty());
                assert(split(v@.take(i + 1), sep) =~= slice_views(parts@).push(
                    v@.subrange(i + 1, i + 1),
                ));
            }
            if parts.len() == limit {
                proof {
                    lemma_split_prefix(v@, sep, i + 1);
                    assert(split(v@.take(i + 1), sep).drop_last() =~= slice_views(parts@));
                }
                return parts;
            }
            start = i + 1;
        } else {
            proof {
                assert(v@.subrange(start as int, i as int).push(b) =~= v@.subrange(
                    start as int,
                    i + 1,
                ));
                assert(split(v@.take(i + 1), sep) =~= held.push(
                    v@.subrange(start as int, i + 1),
                ));
            }
        }
        i += 1;
    }
    let ghost held = slice_views(parts@);
    let piece = &v[start..n];
    parts.push(piece);
    proof {
        assert(v@.take(n as int) =~= v@);
        assert(slice_views(parts@) =~= held.push(piece@));
    }
    parts
}

} // verus!
