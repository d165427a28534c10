//! Tag header values: how a value splits into tags.

use vstd::prelude::*;

use crate::bytes::same_bytes;
use crate::text::{contents, pieces, split_pieces, Delimiter};

verus! {

/// Longest tag the index records and a purge request may name.
pub const MAX_TAG_LEN: usize = 256;

/// The pieces that are not empty.
pub open spec fn words(list: Seq<Seq<u8>>) -> Seq<Seq<u8>> {
    list.filter(|piece: Seq<u8>| piece.len() > 0)
}

/// The tags of a header value: what stands between separators, in order,
/// without the empty runs.
pub open spec fn tags_of(value: Seq<u8>) -> Seq<Seq<u8>> {
    words(pieces(value, Delimiter::Tag))
}

/// The tags of the header value of a response that is about to be sent.
pub open spec fn listed_tags(value: Seq<u8>) -> Seq<Seq<u8>> {
    words(pieces(value, Delimiter::ListedTag))
}

fn split_words<'a>(value: &'a [u8], delimiter: Delimiter) -> (tags: Vec<&'a [u8]>)
    ensures
        contents(tags@) == words(pieces(value@, delimiter)),
{
    let list: Vec<&'a [u8]> = split_pieces(value, delimiter);
    let ghost all = contents(list@);
    let mut tags: Vec<&'a [u8]> = Vec::new();
    let mut i: usize = 0;
    proof {
        reveal(Seq::filter);
        assert(contents(tags@) =~= words(all.take(0)));
    }
    while i < list.len()
        invariant
            i <= list@.len(),
            all == contents(list@),
            contents(tags@) == words(all.take(i as int)),
        decreases list@.len() - i,
    {
        let ghost before = contents(tags@);
        proof {
            reveal(Seq::filter);
            assert(all.take(i + 1).drop_last() =~= all.take(i as int));
        }
        if list[i].len() > 0 {
            tags.push(list[i]);
            assert(contents(tags@) =~= before.push(all[i as int]));
        }
        i += 1;
    }
    assert(all.take(i as int) =~= all);
    tags
}

/// Splits a tag header value into individual tags.
///
/// Tags are separated by spaces, tabs, commas or line breaks, following
/// `xkey`'s whitespace-separated form while tolerating the comma-separated
/// spelling that surrogate-key headers often use.  Empty runs are dropped, so
/// repeated or trailing separators are harmless.
pub fn split_tags<'a>(value: &'a [u8]) -> (tags: Vec<&'a [u8]>)
    ensures
        contents(tags@) == tags_of(value@),
{
    split_words(value, Delimiter::Tag)
}

/// Splits the tag header value of a response that is about to be sent.
pub fn split_listed_tags<'a>(value: &'a [u8]) -> (tags: Vec<&'a [u8]>)
    ensures
        contents(tags@) == listed_tags(value@),
{
    split_words(value, Delimiter::ListedTag)
}

/// Whether `tag` is one of `tags`.
pub fn is_listed(tags: &Vec<&[u8]>, tag: &[u8]) -> (listed: bool)
    ensures
        listed == contents(tags@).contains(tag@),
{
    let mut i: usize = 0;
    while i < tags.len()
        invariant
            i <= tags@.len(),
            forall|j: int| 0 <= j < i ==> #[trigger] contents(tags@)[j] != tag@,
        decreases tags@.len() - i,
    {
        if same_bytes(tags[i], tag) {
            assert(contents(tags@)[i as int] == tag@);
            return true;
        }
        i += 1;
    }
    false
}

/// Every tag has at least one byte and holds no separator.
pub proof fn law_tags_are_words(value: Seq<u8>, tag: Seq<u8>)
    requires
        tags_of(value).contains(tag),
    ensures
        tag.len() > 0,
        forall|i: int| 0 <= i < tag.len() ==> !Delimiter::Tag.ends(#[trigger] tag[i]),
{
    let all = pieces(value, Delimiter::Tag);
    lemma_word(all, tag);
    let at = choose|k: int| 0 <= k < all.len() && all[k] == tag;
    assert forall|i: int| 0 <= i < tag.len() implies !Delimiter::Tag.ends(#[trigger] tag[i]) by {
        crate::text::lemma_pieces_clean(value, Delimiter::Tag, at, i);
    }
}

proof fn lemma_word(list: Seq<Seq<u8>>, word: Seq<u8>)
    requires
        words(list).contains(word),
    ensures
        list.contains(word),
        word.len() > 0,
    decreases list.len(),
{
    reveal(Seq::filter);
    if list.len() > 0 {
        let i = choose|i: int| 0 <= i < words(list).len() && words(list)[i] == word;
        if words(list.drop_last()).contains(word) {
            lemma_word(list.drop_last(), word);
            let k = choose|k: int|
                0 <= k < list.drop_last().len() && list.drop_last()[k] == word;
            assert(list[k] == word);
        } else {
            assert(list.last().len() > 0);
            if i < words(list.drop_last()).len() {
                assert(words(list.drop_last())[i] == word);
            }
            assert(list[list.len() - 1] == word);
        }
    }
}

/// The tags on either side of a separator are independent of each other.
pub proof fn law_tags_split_at_separators(a: Seq<u8>, c: u8, b: Seq<u8>)
    requires
        Delimiter::Tag.ends(c),
    ensures
        tags_of(a.push(c) + b) == tags_of(a) + tags_of(b),
{
    crate::text::lemma_pieces_concat(a, c, b, Delimiter::Tag);
    Seq::filter_distributes_over_add(
        pieces(a, Delimiter::Tag),
        pieces(b, Delimiter::Tag),
        |piece: Seq<u8>| piece.len() > 0,
    );
}

/// Separators by themselves carry no tag.
pub proof fn law_separators_carry_no_tag(separators: Seq<u8>)
    requires
        forall|i: int| 0 <= i < separators.len() ==> Delimiter::Tag.ends(#[trigger] separators[i]),
    ensures
        tags_of(separators) == Seq::<Seq<u8>>::empty(),
    decreases separators.len(),
{
    let nothing = Seq::<u8>::empty();
    assert(tags_of(nothing) =~= Seq::<Seq<u8>>::empty()) by {
        reveal_with_fuel(Seq::filter, 2);
        assert(pieces(nothing, Delimiter::Tag) =~= seq![nothing]);
        assert(seq![nothing].drop_last() =~= Seq::<Seq<u8>>::empty());
    }
    if separators.len() == 0 {
        assert(separators =~= nothing);
    } else {
        law_separators_carry_no_tag(separators.drop_last());
        law_tags_split_at_separators(separators.drop_last(), separators.last(), nothing);
        assert(separators.drop_last().push(separators.last()) + nothing =~= separators);
    }
}

/// Repeated separators are harmless: any run of them splits like one.
pub proof fn law_repeated_separators_are_harmless(a: Seq<u8>, run: Seq<u8>, b: Seq<u8>)
    requires
        run.len() > 0,
        forall|i: int| 0 <= i < run.len() ==> Delimiter::Tag.ends(#[trigger] run[i]),
    ensures
        tags_of(a + run + b) == tags_of(a) + tags_of(b),
{
    let rest = run.drop_first();
    law_tags_split_at_separators(a, run[0], rest + b);
    assert(a.push(run[0]) + (rest + b) =~= a + run + b);
    if rest.len() == 0 {
        assert(rest + b =~= b);
    } else {
        law_tags_split_at_separators(rest.drop_last(), rest.last(), b);
        assert(rest.drop_last().push(rest.last()) + b =~= rest + b);
        law_separators_carry_no_tag(rest.drop_last());
        assert(tags_of(rest + b) =~= tags_of(b));
    }
}

/// Leading and trailing separators are harmless.
pub proof fn law_outer_separators_are_harmless(before: Seq<u8>, value: Seq<u8>, after: Seq<u8>)
    requires
        forall|i: int| 0 <= i < before.len() ==> Delimiter::Tag.ends(#[trigger] before[i]),
        forall|i: int| 0 <= i < after.len() ==> Delimiter::Tag.ends(#[trigger] after[i]),
    ensures
        tags_of(before + value + after) == tags_of(value),
{
    let nothing = Seq::<u8>::empty();
    law_separators_carry_no_tag(nothing);
    assert(tags_of(before + value) == tags_of(value)) by {
        if before.len() == 0 {
            assert(before + value =~= value);
        } else {
            law_repeated_separators_are_harmless(nothing, before, value);
            assert(nothing + before + value =~= before + value);
            assert(tags_of(nothing) + tags_of(value) =~= tags_of(value));
        }
    }
    if after.len() == 0 {
        assert(before + value + after =~= before + value);
    } else {
        law_repeated_separators_are_harmless(before + value, after, nothing);
        assert(before + value + after + nothing =~= before + value + after);
        assert(tags_of(before + value) + tags_of(nothing) =~= tags_of(before + value));
    }
}

/// A tag by itself survives intact.
pub proof fn law_single_tag_survives_intact(tag: Seq<u8>)
    requires
        tag.len() > 0,
        forall|i: int| 0 <= i < tag.len() ==> !Delimiter::Tag.ends(#[trigger] tag[i]),
    ensures
        tags_of(tag) == seq![tag],
{
    crate::text::lemma_pieces_whole(tag, Delimiter::Tag);
    reveal_with_fuel(Seq::filter, 2);
    assert(seq![tag].drop_last() =~= Seq::<Seq<u8>>::empty());
    assert(tags_of(tag) =~= seq![tag]);
}

/// A response is recorded under the tags that a scan later reads from its
/// stored headers: a header value has no line breaks, and without them both
/// splittings agree.
pub proof fn law_listed_tags_are_the_stored_tags(value: Seq<u8>)
    requires
        !value.contains('\r' as u8),
        !value.contains('\n' as u8),
    ensures
        listed_tags(value) == tags_of(value),
{
    assert forall|i: int| 0 <= i < value.len() implies Delimiter::Tag.ends(#[trigger] value[i])
        == Delimiter::ListedTag.ends(value[i]) by {
        assert(value.contains(value[i]));
    }
    crate::text::lemma_pieces_agree(value, Delimiter::Tag, Delimiter::ListedTag);
}

/// A value is one tag unless it holds a space, a tab, a comma, a carriage
/// return or a line feed: no other byte separates tags.
pub proof fn law_no_other_byte_separates_tags(value: Seq<u8>)
    requires
        value.len() > 0,
        forall|i: int|
            0 <= i < value.len() ==> #[trigger] value[i] != 32 && value[i] != 9 && value[i] != 44
                && value[i] != 13 && value[i] != 10,
    ensures
        tags_of(value) == seq![value],
{
    law_single_tag_survives_intact(value);
}

/// Each of these bytes separates tags: what stands before one and what stands
/// after it have their own tags. Nothing has none.
pub proof fn law_these_bytes_separate_tags(before: Seq<u8>, c: u8, after: Seq<u8>)
    requires
        c == 32 || c == 9 || c == 44 || c == 13 || c == 10,
    ensures
        tags_of(before.push(c) + after) == tags_of(before) + tags_of(after),
        tags_of(Seq::<u8>::empty()).len() == 0,
{
    law_tags_split_at_separators(before, c, after);
    law_separators_carry_no_tag(Seq::<u8>::empty());
}

/// The value of a response is one tag unless it holds a space, a tab or a
/// comma.
pub proof fn law_no_other_byte_separates_listed_tags(value: Seq<u8>)
    requires
        value.len() > 0,
        forall|i: int|
            0 <= i < value.len() ==> #[trigger] value[i] != 32 && value[i] != 9 && value[i] != 44,
    ensures
        listed_tags(value) == seq![value],
{
    crate::text::lemma_pieces_whole(value, Delimiter::ListedTag);
    reveal_with_fuel(Seq::filter, 2);
    assert(seq![value].drop_last() =~= Seq::<Seq<u8>>::empty());
    assert(listed_tags(value) =~= seq![value]);
}

/// Each of these bytes separates the tags of a response.
pub proof fn law_these_bytes_separate_listed_tags(before: Seq<u8>, c: u8, after: Seq<u8>)
    requires
        c == 32 || c == 9 || c == 44,
    ensures
        listed_tags(before.push(c) + after) == listed_tags(before) + listed_tags(after),
        listed_tags(Seq::<u8>::empty()).len() == 0,
{
    crate::text::lemma_pieces_concat(before, c, after, Delimiter::ListedTag);
    Seq::filter_distributes_over_add(
        pieces(before, Delimiter::ListedTag),
        pieces(after, Delimiter::ListedTag),
        |piece: Seq<u8>| piece.len() > 0,
    );
    let nothing = Seq::<u8>::empty();
    assert(listed_tags(nothing) =~= Seq::<Seq<u8>>::empty()) by {
        reveal_with_fuel(Seq::filter, 2);
        assert(pieces(nothing, Delimiter::ListedTag) =~= seq![nothing]);
        assert(seq![nothing].drop_last() =~= Seq::<Seq<u8>>::empty());
    }
}

} // verus!
