//! Byte strings cut at delimiters.

use vstd::prelude::*;

verus! {

/// What ends a piece of text.
#[derive(Clone, Copy)]
pub enum Delimiter {
    /// What separates the tags of a header value: a space, a tab, a comma or
    /// either byte of a line break.
    Tag,
    /// The same on a value that a response is about to be sent with, which
    /// has no line breaks: a space, a tab or a comma.
    ListedTag,
    /// The end of a line.
    Line,
}

impl Delimiter {
    pub open spec fn ends(self, c: u8) -> bool {
        match self {
            Delimiter::Tag => c == ' ' as u8 || c == '\t' as u8 || c == ',' as u8 || c == '\r' as u8
                || c == '\n' as u8,
            Delimiter::ListedTag => c == ' ' as u8 || c == '\t' as u8 || c == ',' as u8,
            Delimiter::Line => c == '\n' as u8,
        }
    }

    /// Whether `c` ends a piece.
    pub fn ends_at(self, c: u8) -> (end: bool)
        ensures
            end == self.ends(c),
    {
        match self {
            Delimiter::Tag => c == ' ' as u8 || c == '\t' as u8 || c == ',' as u8 || c == '\r' as u8
                || c == '\n' as u8,
            Delimiter::ListedTag => c == ' ' as u8 || c == '\t' as u8 || c == ',' as u8,
            Delimiter::Line => c == '\n' as u8,
        }
    }
}

/// What stands between the delimiters of `value`, empty pieces included, so
/// that there is one piece more than there are delimiters.
pub open spec fn pieces(value: Seq<u8>, delimiter: Delimiter) -> Seq<Seq<u8>>
    decreases value.len(),
{
    if value.len() == 0 {
        seq![Seq::<u8>::empty()]
    } else {
        let before = pieces(value.drop_last(), delimiter);
        if delimiter.ends(value.last()) {
            before.push(Seq::<u8>::empty())
        } else {
            before.drop_last().push(before.last().push(value.last()))
        }
    }
}

/// The contents of a list of byte strings.
pub open spec fn contents(list: Seq<&[u8]>) -> Seq<Seq<u8>> {
    list.map_values(|item: &[u8]| item@)
}

/// Cuts `value` at every delimiter.
pub fn split_pieces<'a>(value: &'a [u8], delimiter: Delimiter) -> (list: Vec<&'a [u8]>)
    ensures
        contents(list@) == pieces(value@, delimiter),
{
    let mut list: Vec<&'a [u8]> = Vec::new();
    let mut start: usize = 0;
    let mut i: usize = 0;
    proof {
        assert(value@.take(0) =~= Seq::<u8>::empty());
        assert(value@.subrange(0, 0) =~= Seq::<u8>::empty());
        assert(pieces(value@.take(0), delimiter) =~= contents(list@).push(value@.subrange(0, 0)));
    }
    while i < value.len()
        invariant
            start <= i <= value@.len(),
            pieces(value@.take(i as int), delimiter) == contents(list@).push(
                value@.subrange(start as int, i as int),
            ),
        decreases value@.len() - i,
    {
        let ghost cut = contents(list@);
        let ghost open = value@.subrange(start as int, i as int);
        proof {
            assert(value@.take(i + 1).drop_last() =~= value@.take(i as int));
            assert(cut.push(open).drop_last() =~= cut);
        }
        if delimiter.ends_at(value[i]) {
            list.push(&value[start..i]);
            start = i + 1;
            proof {
                assert(contents(list@) =~= cut.push(open));
                assert(value@.subrange(start as int, i + 1) =~= Seq::<u8>::empty());
            }
        } else {
            assert(value@.subrange(start as int, i + 1) =~= open.push(value@[i as int]));
        }
        i += 1;
    }
    let ghost cut = contents(list@);
    list.push(&value[start..i]);
    proof {
        assert(value@.take(i as int) =~= value@);
        assert(contents(list@) =~= cut.push(value@.subrange(start as int, i as int)));
    }
    list
}

/// A delimiter cuts a text in two that have nothing to do with each other.
pub proof fn lemma_pieces_concat(a: Seq<u8>, c: u8, b: Seq<u8>, delimiter: Delimiter)
    requires
        delimiter.ends(c),
    ensures
        pieces(a.push(c) + b, delimiter) == pieces(a, delimiter) + pieces(b, delimiter),
    decreases b.len(),
{
    if b.len() == 0 {
        assert(b =~= Seq::<u8>::empty());
        assert(a.push(c) + b =~= a.push(c));
        assert(a.push(c).drop_last() =~= a);
        assert(pieces(a, delimiter).push(b) =~= pieces(a, delimiter) + pieces(b, delimiter));
    } else {
        let whole = a.push(c) + b;
        lemma_pieces_concat(a, c, b.drop_last(), delimiter);
        lemma_pieces_nonempty(b.drop_last(), delimiter);
        assert(whole.drop_last() =~= a.push(c) + b.drop_last());
        assert(pieces(whole, delimiter) =~= pieces(a, delimiter) + pieces(b, delimiter));
    }
}

pub proof fn lemma_pieces_nonempty(value: Seq<u8>, delimiter: Delimiter)
    ensures
        pieces(value, delimiter).len() > 0,
    decreases value.len(),
{
    if value.len() > 0 {
        lemma_pieces_nonempty(value.drop_last(), delimiter);
    }
}

/// A text without delimiters is one piece.
pub proof fn lemma_pieces_whole(value: Seq<u8>, delimiter: Delimiter)
    requires
        forall|i: int| 0 <= i < value.len() ==> !delimiter.ends(#[trigger] value[i]),
    ensures
        pieces(value, delimiter) == seq![value],
    decreases value.len(),
{
    if value.len() == 0 {
        assert(value =~= Seq::<u8>::empty());
    } else {
        lemma_pieces_whole(value.drop_last(), delimiter);
        assert(value.drop_last().push(value.last()) =~= value);
        assert(pieces(value, delimiter) =~= seq![value]);
    }
}

/// No piece holds a delimiter.
pub proof fn lemma_pieces_clean(value: Seq<u8>, delimiter: Delimiter, i: int, j: int)
    requires
        0 <= i < pieces(value, delimiter).len(),
        0 <= j < pieces(value, delimiter)[i].len(),
    ensures
        !delimiter.ends(pieces(value, delimiter)[i][j]),
    decreases value.len(),
{
    if value.len() > 0 {
        let before = pieces(value.drop_last(), delimiter);
        lemma_pieces_nonempty(value.drop_last(), delimiter);
        if i < before.len() && j < before[i].len() {
            lemma_pieces_clean(value.drop_last(), delimiter, i, j);
        }
    }
}

/// Two delimiters that agree on every byte of a text cut it alike.
pub proof fn lemma_pieces_agree(value: Seq<u8>, a: Delimiter, b: Delimiter)
    requires
        forall|i: int| 0 <= i < value.len() ==> a.ends(#[trigger] value[i]) == b.ends(value[i]),
    ensures
        pieces(value, a) == pieces(value, b),
    decreases value.len(),
{
    if value.len() > 0 {
        assert(a.ends(value[value.len() - 1]) == b.ends(value[value.len() - 1]));
        lemma_pieces_agree(value.drop_last(), a, b);
    }
}

/// A list's contents are those of its items, in their order.
pub proof fn law_contents_keep_the_order(list: Seq<&[u8]>, i: int)
    ensures
        contents(list).len() == list.len(),
        0 <= i < list.len() ==> contents(list)[i] == list[i]@,
{
}

} // verus!
