//! Splitting and joining of text on a separator character.

use vstd::prelude::*;
use vstd::std_specs::iter::IteratorSpec;
use vstd::string::StringExecFns;

verus! {

/// `String::push` of the standard library: the string afterwards is the string
/// before with `c` appended as its last character.
pub assume_specification[ String::push ](s: &mut String, c: char)
    ensures
        final(s)@ == old(s)@.push(c),
;

/// The texts held by a sequence of strings.
pub open spec fn texts(v: Seq<String>) -> Seq<Seq<char>> {
    Seq::new(v.len(), |i: int| v[i]@)
}

/// The pieces of `s` between occurrences of `sep`, read left to right: every
/// separator closes the piece in progress and opens a new, empty one. There is
/// always at least one piece, and the text itself is the only piece when it
/// holds no separator.
pub open spec fn split(s: Seq<char>, sep: char) -> Seq<Seq<char>>
    decreases s.len(),
{
    if s.len() == 0 {
        seq![Seq::empty()]
    } else {
        let before = split(s.drop_last(), sep);
        if s.last() == sep {
            before.push(Seq::empty())
        } else {
            before.drop_last().push(before.last().push(s.last()))
        }
    }
}

/// The pieces written one after the other with `sep` between neighbours.
pub open spec fn join(pieces: Seq<Seq<char>>, sep: char) -> Seq<char>
    decreases pieces.len(),
{
    if pieces.len() == 0 {
        Seq::empty()
    } else if pieces.len() == 1 {
        pieces[0]
    } else {
        join(pieces.drop_last(), sep).push(sep) + pieces.last()
    }
}

/// Splitting never yields an empty list of pieces.
pub proof fn lemma_split_nonempty(s: Seq<char>, sep: char)
    ensures
        split(s, sep).len() >= 1,
    decreases s.len(),
{
    if s.len() > 0 {
        lemma_split_nonempty(s.drop_last(), sep);
    }
}

/// No piece of a split holds the separator.
pub proof fn lemma_split_pieces_hold_no_separator(s: Seq<char>, sep: char)
    ensures
        forall|i: int, j: int|
            0 <= i < split(s, sep).len() && 0 <= j < split(s, sep)[i].len() ==> split(
                s,
                sep,
            )[i][j] != sep,
    decreases s.len(),
{
    if s.len() > 0 {
        lemma_split_pieces_hold_no_separator(s.drop_last(), sep);
        lemma_split_nonempty(s.drop_last(), sep);
    }
}

/// Joining the pieces of a split gives the text back.
pub proof fn lemma_join_split(s: Seq<char>, sep: char)
    ensures
        join(split(s, sep), sep) == s,
    decreases s.len(),
{
    if s.len() > 0 {
        let head = s.drop_last();
        let before = split(head, sep);
        lemma_join_split(head, sep);
        lemma_split_nonempty(head, sep);
        if s.last() == sep {
            assert(before.push(Seq::empty()).drop_last() == before);
            assert(join(before, sep).push(sep) + Seq::<char>::empty() == head.push(sep));
        } else {
            let grown = before.drop_last().push(before.last().push(s.last()));
            assert(grown.drop_last() == before.drop_last());
            if before.len() == 1 {
                assert(before.last() == head);
            } else {
                assert(join(before, sep) == join(before.drop_last(), sep).push(sep)
                    + before.last());
                assert(join(grown, sep) == join(before.drop_last(), sep).push(sep) + before.last().push(
                    s.last(),
                ));
                assert(join(grown, sep) == (join(before.drop_last(), sep).push(sep)
                    + before.last()).push(s.last()));
            }
        }
        assert(head.push(s.last()) == s);
    }
}

/// A joined text falls into the join of the first `i` pieces, the separator,
/// and the join of the pieces from `i` on.
pub proof fn lemma_join_parts(pieces: Seq<Seq<char>>, i: int, sep: char)
    requires
        0 < i < pieces.len(),
    ensures
        join(pieces, sep) == join(pieces.take(i), sep).push(sep) + join(pieces.skip(i), sep),
    decreases pieces.len(),
{
    let head = pieces.drop_last();
    if i == pieces.len() - 1 {
        assert(pieces.take(i) == head);
        assert(pieces.skip(i) == seq![pieces.last()]);
    } else {
        lemma_join_parts(head, i, sep);
        assert(head.take(i) == pieces.take(i));
        assert(pieces.skip(i).drop_last() == head.skip(i));
        assert(pieces.skip(i).last() == pieces.last());
        let front = join(pieces.take(i), sep).push(sep);
        let middle = join(head.skip(i), sep);
        assert(join(pieces, sep) == (front + middle).push(sep) + pieces.last());
        assert(join(pieces.skip(i), sep) == middle.push(sep) + pieces.last());
        assert((front + middle).push(sep) + pieces.last() == front + (middle.push(sep)
            + pieces.last()));
    }
}

/// Splits `s` on `sep`.
pub fn split_text(s: &str, sep: char) -> (pieces: Vec<String>)
    ensures
        texts(pieces@) == split(s@, sep),
        pieces@.len() >= 1,
{
    let mut pieces: Vec<String> = Vec::new();
    let mut piece = String::new();
    assert(s@.take(0) == Seq::<char>::empty());
    assert(texts(pieces@).push(piece@) == seq![Seq::<char>::empty()]);
    for c in it: s.chars()
        invariant
            it.seq() == s@,
            split(s@.take(it.index() as int), sep) == texts(pieces@).push(piece@),
    {
        let ghost seen = s@.take(it.index() as int);
        let ghost next = s@.take(it.index() + 1);
        let ghost done = texts(pieces@);
        assert(next.drop_last() == seen);
        assert(next.last() == c);
        if c == sep {
            pieces.push(piece);
            piece = String::new();
            assert(texts(pieces@) == done.push(split(seen, sep).last()));
        } else {
            piece.push(c);
            assert(done.push(split(seen, sep).last()).drop_last() == done);
            assert(texts(pieces@) == done);
        }
    }
    assert(s@.take(s@.len() as int) == s@);
    let ghost done = texts(pieces@);
    pieces.push(piece);
    assert(texts(pieces@) == done.push(piece@));
    pieces
}

/// Joins the pieces from index `from` on with `sep` between neighbours.
pub fn join_from(pieces: &Vec<String>, from: usize, sep: char) -> (text: String)
    requires
        from <= pieces.len(),
    ensures
        text@ == join(texts(pieces@).skip(from as int), sep),
{
    let mut text = String::new();
    let mut i: usize = from;
    let ghost all = texts(pieces@);
    assert(all.subrange(from as int, from as int) == Seq::<Seq<char>>::empty());
    while i < pieces.len()
        invariant
            from <= i <= pieces.len(),
            all == texts(pieces@),
            text@ == join(all.subrange(from as int, i as int), sep),
        decreases pieces.len() - i,
    {
        let ghost upto = all.subrange(from as int, i as int);
        let ghost more = all.subrange(from as int, i + 1);
        assert(more.drop_last() == upto);
        assert(more.last() == pieces@[i as int]@);
        if i > from {
            text.push(sep);
        }
        text.append(pieces[i].as_str());
        i += 1;
    }
    assert(all.subrange(from as int, pieces.len() as int) == all.skip(from as int));
    text
}

/// Whether `s` begins with `prefix`.
pub fn starts_with(s: &str, prefix: &str) -> (r: bool)
    ensures
        r == prefix@.is_prefix_of(s@),
{
    broadcast use vstd::string::group_string_axioms;

    let mut rest = s.chars();
    for c in it: prefix.chars()
        invariant
            it.seq() == prefix@,
            it.index() <= s@.len(),
            rest.remaining() == s@.skip(it.index() as int),
            prefix@.take(it.index() as int) == s@.take(it.index() as int),
    {
        let ghost seen = it.index() as int;
        match rest.next() {
            Some(d) => {
                assert(d == s@[seen]);
                if d != c {
                    assert(!prefix@.is_prefix_of(s@)) by {
                        if prefix@.is_prefix_of(s@) {
                            assert(s@.subrange(0, prefix@.len() as int)[seen] == prefix@[seen]);
                        }
                    }
                    return false;
                }
                assert(prefix@.take(seen + 1) == prefix@.take(seen).push(c));
                assert(s@.take(seen + 1) == s@.take(seen).push(d));
                assert(s@.skip(seen).drop_first() == s@.skip(seen + 1));
            },
            None => {
                assert(s@.skip(seen).len() == 0);
                return false;
            },
        }
    }
    assert(prefix@.take(prefix@.len() as int) == prefix@);
    assert(s@.take(prefix@.len() as int) == s@.subrange(0, prefix@.len() as int));
    true
}

/// Whether two texts are the same.
pub fn same_text(a: &str, b: &str) -> (r: bool)
    ensures
        r == (a@ == b@),
{
    let r = starts_with(a, b) && starts_with(b, a);
    proof {
        if r {
            assert(a@.subrange(0, b@.len() as int) == a@);
        }
        if a@ == b@ {
            assert(a@.subrange(0, a@.len() as int) == a@);
        }
    }
    r
}

/// `text` behind `prefix`.
pub fn prefixed(prefix: &str, text: &str) -> (whole: String)
    ensures
        whole@ == prefix@ + text@,
        prefix@.is_prefix_of(whole@),
{
    let whole = String::from_str(prefix).concat(text);
    assert((prefix@ + text@).subrange(0, prefix@.len() as int) == prefix@);
    whole
}

} // verus!
