//! Byte strings split on `/`.
//!
//! Paths and path patterns are handled as bytes. This module defines what it
//! means to split a byte string on `/` and to join the pieces again, proves
//! that the two undo each other, and provides the executable splitter.

use vstd::prelude::*;

verus! {

/// The byte `/`.
pub const SLASH: u8 = 0x2f;

/// The pieces of `s` between its `/` bytes, in order. There is always at
/// least one piece; a `/` at either end, or two in a row, give an empty piece.
pub open spec fn split_slash(s: Seq<u8>) -> Seq<Seq<u8>>
    decreases s.len(),
{
    if s.len() == 0 {
        seq![Seq::<u8>::empty()]
    } else {
        let before = split_slash(s.drop_last());
        if s.last() == SLASH {
            before.push(Seq::<u8>::empty())
        } else {
            before.drop_last().push(before.last().push(s.last()))
        }
    }
}

/// The pieces written one after another with a `/` between neighbours.
pub open spec fn join_slash(pieces: Seq<Seq<u8>>) -> Seq<u8>
    decreases pieces.len(),
{
    if pieces.len() == 0 {
        Seq::<u8>::empty()
    } else if pieces.len() == 1 {
        pieces[0]
    } else {
        join_slash(pieces.drop_last()) + seq![SLASH] + pieces.last()
    }
}

/// Whether `s` holds no `/`.
pub open spec fn slash_free(s: Seq<u8>) -> bool {
    forall|i: int| 0 <= i < s.len() ==> s[i] != SLASH
}

/// Whether every piece is non-empty and holds no `/`.
pub open spec fn proper_pieces(pieces: Seq<Seq<u8>>) -> bool {
    forall|i: int| 0 <= i < pieces.len() ==> (#[trigger] pieces[i]).len() > 0 && slash_free(pieces[i])
}

/// The byte strings held by a vector of vectors.
pub open spec fn pieces_view(v: Seq<Vec<u8>>) -> Seq<Seq<u8>> {
    Seq::new(v.len(), |i: int| v[i]@)
}

/// Splitting never yields an empty list.
pub proof fn lemma_split_nonempty(s: Seq<u8>)
    ensures
        split_slash(s).len() >= 1,
    decreases s.len(),
{
    if s.len() > 0 {
        lemma_split_nonempty(s.drop_last());
    }
}

/// No piece of a split holds a `/`.
pub proof fn lemma_split_pieces_slash_free(s: Seq<u8>)
    ensures
        forall|i: int| 0 <= i < split_slash(s).len() ==> slash_free(#[trigger] split_slash(s)[i]),
    decreases s.len(),
{
    if s.len() > 0 {
        lemma_split_nonempty(s.drop_last());
        lemma_split_pieces_slash_free(s.drop_last());
    }
}

/// A byte string without `/` splits into itself.
pub proof fn lemma_split_slash_free(s: Seq<u8>)
    requires
        slash_free(s),
    ensures
        split_slash(s) == seq![s],
    decreases s.len(),
{
    if s.len() == 0 {
        assert(s =~= Seq::<u8>::empty());
    } else {
        let shorter = s.drop_last();
        assert(slash_free(shorter));
        lemma_split_slash_free(shorter);
        let before = split_slash(shorter);
        assert(before.len() == 1);
        assert(before.last() == shorter);
        assert(s.last() != SLASH);
        assert(shorter.push(s.last()) =~= s);
        assert(before.drop_last().push(before.last().push(s.last())) =~= seq![s]);
    }
}

/// Splitting distributes over a `/` between two byte strings.
pub proof fn lemma_split_around_slash(a: Seq<u8>, b: Seq<u8>)
    ensures
        split_slash(a + seq![SLASH] + b) == split_slash(a) + split_slash(b),
    decreases b.len(),
{
    let whole = a + seq![SLASH] + b;
    if b.len() == 0 {
        assert(whole.drop_last() =~= a);
        assert(split_slash(a).push(Seq::<u8>::empty()) =~= split_slash(a) + split_slash(b));
    } else {
        let shorter = b.drop_last();
        lemma_split_around_slash(a, shorter);
        lemma_split_nonempty(shorter);
        assert(whole.drop_last() =~= a + seq![SLASH] + shorter);
        assert(whole.last() == b.last());
        let left = split_slash(a);
        let right = split_slash(shorter);
        if b.last() == SLASH {
            assert((left + right).push(Seq::<u8>::empty()) =~= left + right.push(Seq::<u8>::empty()));
        } else {
            assert((left + right).drop_last().push((left + right).last().push(b.last()))
                =~= left + right.drop_last().push(right.last().push(b.last())));
        }
    }
}

/// Joining the pieces of a split gives the byte string back.
pub proof fn lemma_join_split(s: Seq<u8>)
    ensures
        join_slash(split_slash(s)) == s,
    decreases s.len(),
{
    if s.len() == 0 {
        assert(join_slash(seq![Seq::<u8>::empty()]) =~= s);
    } else {
        let shorter = s.drop_last();
        lemma_join_split(shorter);
        lemma_split_nonempty(shorter);
        let before = split_slash(shorter);
        assert(s =~= shorter.push(s.last()));
        if s.last() == SLASH {
            let pieces = before.push(Seq::<u8>::empty());
            assert(pieces.drop_last() =~= before);
            assert(join_slash(pieces) =~= shorter + seq![SLASH] + Seq::<u8>::empty());
        } else {
            let grown = before.last().push(s.last());
            let pieces = before.drop_last().push(grown);
            if before.len() == 1 {
                assert(before[0] == join_slash(before));
                assert(join_slash(pieces) =~= s);
            } else {
                assert(pieces.drop_last() =~= before.drop_last());
                assert(join_slash(before) == join_slash(before.drop_last()) + seq![SLASH]
                    + before.last());
                assert(join_slash(pieces) =~= join_slash(before.drop_last()) + seq![SLASH] + grown);
                assert(join_slash(pieces) =~= s);
            }
        }
    }
}

/// Splitting the join of pieces that hold no `/` gives the pieces back.
pub proof fn lemma_split_join(pieces: Seq<Seq<u8>>)
    requires
        pieces.len() >= 1,
        forall|i: int| 0 <= i < pieces.len() ==> slash_free(#[trigger] pieces[i]),
    ensures
        split_slash(join_slash(pieces)) == pieces,
    decreases pieces.len(),
{
    if pieces.len() == 1 {
        lemma_split_slash_free(pieces[0]);
        assert(seq![pieces[0]] =~= pieces);
    } else {
        let front = pieces.drop_last();
        lemma_split_join(front);
        lemma_split_around_slash(join_slash(front), pieces.last());
        lemma_split_slash_free(pieces.last());
        assert(front + seq![pieces.last()] =~= pieces);
    }
}

/// Whether two byte strings are equal.
pub fn bytes_eq(a: &[u8], b: &[u8]) -> (same: bool)
    ensures
        same == (a@ == b@),
{
    if a.len() != b.len() {
        return false;
    }
    let mut i: usize = 0;
    while i < a.len()
        invariant
            i <= a.len(),
            a.len() == b.len(),
            forall|j: int| 0 <= j < i ==> a@[j] == b@[j],
        decreases a.len() - i,
    {
        if a[i] != b[i] {
            return false;
        }
        i += 1;
    }
    assert(a@ =~= b@);
    true
}

/// Whether `s` holds `byte`.
pub fn contains_byte(s: &[u8], byte: u8) -> (found: bool)
    ensures
        found == s@.contains(byte),
{
    let mut i: usize = 0;
    while i < s.len()
        invariant
            i <= s.len(),
            forall|j: int| 0 <= j < i ==> s@[j] != byte,
        decreases s.len() - i,
    {
        if s[i] == byte {
            return true;
        }
        i += 1;
    }
    false
}

/// A copy of `s[from..to]`.
pub fn copy_range(s: &[u8], from: usize, to: usize) -> (copy: Vec<u8>)
    requires
        from <= to <= s.len(),
    ensures
        copy@ == s@.subrange(from as int, to as int),
{
    let mut copy: Vec<u8> = Vec::new();
    let mut i: usize = from;
    while i < to
        invariant
            from <= i <= to <= s.len(),
            copy@ == s@.subrange(from as int, i as int),
        decreases to - i,
    {
        copy.push(s[i]);
        assert(s@.subrange(from as int, i as int).push(s@[i as int]) =~= s@.subrange(
            from as int,
            i + 1,
        ));
        i += 1;
    }
    copy
}

/// Splits `s[from..to]` on `/`.
pub fn split_range(s: &[u8], from: usize, to: usize) -> (pieces: Vec<Vec<u8>>)
    requires
        from <= to <= s.len(),
    ensures
        pieces_view(pieces@) == split_slash(s@.subrange(from as int, to as int)),
{
    let mut pieces: Vec<Vec<u8>> = Vec::new();
    let mut current: Vec<u8> = Vec::new();
    let mut i: usize = from;
    assert(pieces_view(pieces@).push(current@) =~= split_slash(
        s@.subrange(from as int, from as int),
    ));
    while i < to
        invariant
            from <= i <= to <= s.len(),
            pieces_view(pieces@).push(current@) == split_slash(s@.subrange(from as int, i as int)),
        decreases to - i,
    {
        let ghost seen = s@.subrange(from as int, i as int);
        let ghost next = s@.subrange(from as int, i + 1);
        let ghost done = pieces_view(pieces@);
        let ghost open = current@;
        assert(next.drop_last() =~= seen);
        assert(next.last() == s@[i as int]);
        if s[i] == SLASH {
            pieces.push(current);
            current = Vec::new();
            assert(pieces_view(pieces@) =~= done.push(open));
            assert(pieces_view(pieces@).push(current@) =~= split_slash(next));
        } else {
            current.push(s[i]);
            assert(done.push(open).drop_last() =~= done);
            assert(pieces_view(pieces@).push(current@) =~= split_slash(next));
        }
        i += 1;
    }
    let ghost done = pieces_view(pieces@);
    pieces.push(current);
    assert(pieces_view(pieces@) =~= done.push(current@));
    pieces
}

} // verus!
