//! Header names and values.

use vstd::prelude::*;

use crate::tags::{law_outer_separators_are_harmless, tags_of};
use crate::text::{
    contents, lemma_pieces_concat, lemma_pieces_whole, pieces, split_pieces, Delimiter,
};

verus! {

/// One header of a request or a response.
pub struct Header<'a> {
    pub name: &'a [u8],
    pub value: &'a [u8],
}

/// A header by its contents.
#[verifier::ext_equal]
pub struct HeaderView {
    pub name: Seq<u8>,
    pub value: Seq<u8>,
}

impl<'a> View for Header<'a> {
    type V = HeaderView;

    open spec fn view(&self) -> HeaderView {
        HeaderView { name: self.name@, value: self.value@ }
    }
}

/// The contents of a list of headers.
pub open spec fn header_views(headers: Seq<Header>) -> Seq<HeaderView> {
    headers.map_values(|header: Header| header@)
}

/// The lowercase form of an ASCII letter; any other byte stands for itself.
pub open spec fn lower(c: u8) -> u8 {
    if 'A' as u8 <= c <= 'Z' as u8 {
        (c + 32) as u8
    } else {
        c
    }
}

/// Whether two names differ at most in the case of their ASCII letters.
pub open spec fn same_name(a: Seq<u8>, b: Seq<u8>) -> bool {
    a.map_values(|c: u8| lower(c)) == b.map_values(|c: u8| lower(c))
}

fn to_lower(c: u8) -> (l: u8)
    ensures
        l == lower(c),
{
    if 'A' as u8 <= c && c <= 'Z' as u8 {
        c + 32
    } else {
        c
    }
}

/// Whether two names differ at most in the case of their ASCII letters.
pub fn eq_ignore_ascii_case(a: &[u8], b: &[u8]) -> (same: bool)
    ensures
        same == same_name(a@, b@),
{
    let ghost la = a@.map_values(|c: u8| lower(c));
    let ghost lb = b@.map_values(|c: u8| lower(c));
    if a.len() != b.len() {
        assert(la.len() != lb.len());
        return false;
    }
    let mut i: usize = 0;
    while i < a.len()
        invariant
            i <= a@.len() == b@.len(),
            la == a@.map_values(|c: u8| lower(c)),
            lb == b@.map_values(|c: u8| lower(c)),
            forall|j: int| 0 <= j < i ==> la[j] == lb[j],
        decreases a@.len() - i,
    {
        if to_lower(a[i]) != to_lower(b[i]) {
            assert(la[i as int] != lb[i as int]);
            return false;
        }
        i += 1;
    }
    assert(la =~= lb);
    true
}

/// Blanks around a header value that are not part of it.
pub open spec fn is_blank(c: u8) -> bool {
    c == ' ' as u8 || c == '\t' as u8 || c == '\r' as u8
}

/// A value without the blanks around it.
pub open spec fn trimmed(value: Seq<u8>) -> Seq<u8>
    decreases value.len(),
{
    if value.len() == 0 {
        value
    } else if is_blank(value.first()) {
        trimmed(value.drop_first())
    } else if is_blank(value.last()) {
        trimmed(value.drop_last())
    } else {
        value
    }
}

/// The value on a header line, if the line is for the header `name`: what
/// follows the colon behind the name.
pub open spec fn line_value(line: Seq<u8>, name: Seq<u8>) -> Option<Seq<u8>> {
    if name.len() < line.len() && line[name.len() as int] == ':' as u8 && same_name(
        line.take(name.len() as int),
        name,
    ) {
        Some(trimmed(line.skip(name.len() as int + 1)))
    } else {
        None
    }
}

/// The value on the first of `lines` that is for the header `name`.
pub open spec fn first_value(lines: Seq<Seq<u8>>, name: Seq<u8>) -> Option<Seq<u8>>
    decreases lines.len(),
{
    if lines.len() == 0 {
        None
    } else if line_value(lines.first(), name) is Some {
        line_value(lines.first(), name)
    } else {
        first_value(lines.drop_first(), name)
    }
}

/// The value of the header `name` in a stored header block: that of the first
/// line for it.
pub open spec fn stored_value(block: Seq<u8>, name: Seq<u8>) -> Option<Seq<u8>> {
    first_value(pieces(block, Delimiter::Line), name)
}

fn blank(c: u8) -> (b: bool)
    ensures
        b == is_blank(c),
{
    c == ' ' as u8 || c == '\t' as u8 || c == '\r' as u8
}

fn trim<'a>(value: &'a [u8]) -> (inner: &'a [u8])
    ensures
        inner@ == trimmed(value@),
{
    let mut start: usize = 0;
    let mut end: usize = value.len();
    assert(value@.subrange(0, end as int) =~= value@);
    while start < end && blank(value[start])
        invariant
            start <= end == value@.len(),
            trimmed(value@.subrange(start as int, end as int)) == trimmed(value@),
        decreases end - start,
    {
        assert(value@.subrange(start as int, end as int).drop_first() =~= value@.subrange(
            start + 1,
            end as int,
        ));
        start += 1;
    }
    while start < end && blank(value[end - 1])
        invariant
            start <= end <= value@.len(),
            start < end ==> !is_blank(value@[start as int]),
            trimmed(value@.subrange(start as int, end as int)) == trimmed(value@),
        decreases end - start,
    {
        assert(value@.subrange(start as int, end as int).drop_last() =~= value@.subrange(
            start as int,
            end - 1,
        ));
        end -= 1;
    }
    &value[start..end]
}

/// The value of the header `name` in a stored header block.
///
/// The block is the response head as the upstream sent it: lines of a name, a
/// colon and a value. Names compare without regard to case, and the first
/// line for the name counts.
pub fn find_header<'a>(block: &'a [u8], name: &[u8]) -> (value: Option<&'a [u8]>)
    ensures
        value is Some <==> stored_value(block@, name@) is Some,
        value matches Some(v) ==> stored_value(block@, name@) == Some(v@),
{
    let lines: Vec<&'a [u8]> = split_pieces(block, Delimiter::Line);
    let ghost all = contents(lines@);
    let mut i: usize = 0;
    assert(all.skip(0) =~= all);
    while i < lines.len()
        invariant
            i <= lines@.len(),
            all == contents(lines@),
            all == pieces(block@, Delimiter::Line),
            first_value(all.skip(i as int), name@) == stored_value(block@, name@),
        decreases lines@.len() - i,
    {
        let line: &'a [u8] = lines[i];
        let n: usize = name.len();
        proof {
            assert(all.skip(i as int).first() == line@);
            assert(all.skip(i as int).drop_first() =~= all.skip(i + 1));
        }
        if n < line.len() && line[n] == ':' as u8 && eq_ignore_ascii_case(&line[0..n], name) {
            assert(line@.subrange(0, n as int) =~= line@.take(n as int));
            assert(line@.subrange(n + 1, line@.len() as int) =~= line@.skip(n + 1));
            return Some(trim(&line[n + 1..line.len()]));
        }
        proof {
            if n < line@.len() {
                assert(line@.subrange(0, n as int) =~= line@.take(n as int));
            }
        }
        i += 1;
    }
    None
}

/// The value of the first header named `name`; one without a value counts
/// only if `empty` says so.
pub open spec fn named_value(headers: Seq<HeaderView>, name: Seq<u8>, empty: bool) -> Option<
    Seq<u8>,
>
    decreases headers.len(),
{
    if headers.len() == 0 {
        None
    } else if same_name(headers.first().name, name) && (empty || headers.first().value.len() > 0) {
        Some(headers.first().value)
    } else {
        named_value(headers.drop_first(), name, empty)
    }
}

/// The value of the first header named `name`. One without a value is passed
/// over unless `empty` is set.
pub fn header_named<'a>(headers: &Vec<Header<'a>>, name: &[u8], empty: bool) -> (value: Option<
    &'a [u8],
>)
    ensures
        value is Some <==> named_value(header_views(headers@), name@, empty) is Some,
        value matches Some(v) ==> named_value(header_views(headers@), name@, empty) == Some(v@),
{
    let ghost all = header_views(headers@);
    let mut i: usize = 0;
    assert(all.skip(0) =~= all);
    while i < headers.len()
        invariant
            i <= headers@.len(),
            all == header_views(headers@),
            named_value(all.skip(i as int), name@, empty) == named_value(all, name@, empty),
        decreases headers@.len() - i,
    {
        let header: &Header<'a> = &headers[i];
        proof {
            assert(all.skip(i as int).first() == header@);
            assert(all.skip(i as int).drop_first() =~= all.skip(i + 1));
        }
        if eq_ignore_ascii_case(header.name, name) && (empty || header.value.len() > 0) {
            return Some(header.value);
        }
        i += 1;
    }
    None
}

proof fn lemma_first_value_concat(a: Seq<Seq<u8>>, b: Seq<Seq<u8>>, name: Seq<u8>)
    ensures
        first_value(a + b, name) == if first_value(a, name) is Some {
            first_value(a, name)
        } else {
            first_value(b, name)
        },
    decreases a.len(),
{
    if a.len() == 0 {
        assert(a + b =~= b);
    } else {
        assert((a + b).first() == a.first());
        assert((a + b).drop_first() =~= a.drop_first() + b);
        lemma_first_value_concat(a.drop_first(), b, name);
    }
}

/// What is stored is found: a header line is read back from a block, whatever
/// stands around it, unless an earlier line is for the same header.
pub proof fn law_stored_header_is_found(
    head: Seq<u8>,
    spelling: Seq<u8>,
    value: Seq<u8>,
    rest: Seq<u8>,
    name: Seq<u8>,
)
    requires
        stored_value(head, name) is None,
        same_name(spelling, name),
        !spelling.contains('\n' as u8),
        !value.contains('\n' as u8),
    ensures
        stored_value(
            head.push('\n' as u8) + (spelling.push(':' as u8) + value).push('\n' as u8) + rest,
            name,
        ) == Some(trimmed(value)),
{
    let lf = '\n' as u8;
    let line = spelling.push(':' as u8) + value;
    let block = head.push(lf) + line.push(lf) + rest;
    assert(spelling.len() == name.len()) by {
        assert(spelling.map_values(|c: u8| lower(c)).len() == name.map_values(|c: u8| lower(c)).len());
    }
    assert forall|i: int| 0 <= i < line.len() implies !Delimiter::Line.ends(#[trigger] line[i]) by {
        if i < spelling.len() {
            assert(spelling.contains(spelling[i]));
        } else if i > spelling.len() {
            assert(value.contains(value[i - spelling.len() - 1]));
        }
    }
    lemma_pieces_whole(line, Delimiter::Line);
    lemma_pieces_concat(line, lf, rest, Delimiter::Line);
    lemma_pieces_concat(head, lf, line.push(lf) + rest, Delimiter::Line);
    assert(head.push(lf) + (line.push(lf) + rest) =~= block);
    let lines = pieces(line, Delimiter::Line) + pieces(rest, Delimiter::Line);
    lemma_first_value_concat(pieces(head, Delimiter::Line), lines, name);
    assert(lines.first() == line);
    assert(line.take(name.len() as int) =~= spelling);
    assert(line.skip(name.len() as int + 1) =~= value);
}

/// The blanks that are trimmed off a value carry no tags.
pub proof fn law_trimming_keeps_the_tags(value: Seq<u8>)
    ensures
        tags_of(trimmed(value)) == tags_of(value),
    decreases value.len(),
{
    let nothing = Seq::<u8>::empty();
    if value.len() == 0 {
    } else if is_blank(value.first()) {
        let inner = value.drop_first();
        law_trimming_keeps_the_tags(inner);
        law_outer_separators_are_harmless(seq![value.first()], inner, nothing);
        assert(seq![value.first()] + inner + nothing =~= value);
    } else if is_blank(value.last()) {
        let inner = value.drop_last();
        law_trimming_keeps_the_tags(inner);
        law_outer_separators_are_harmless(nothing, inner, seq![value.last()]);
        assert(nothing + inner + seq![value.last()] =~= value);
    }
}

/// Two names are the same exactly where they are as long and each byte is the
/// same, or is a letter from A to Z in one and that letter, 32 further on, in
/// the other.
pub proof fn law_names_differ_in_letter_case_only(a: Seq<u8>, b: Seq<u8>)
    ensures
        same_name(a, b) <==> a.len() == b.len() && forall|i: int|
            0 <= i < a.len() ==> #[trigger] a[i] == b[i] || (65 <= a[i] <= 90 && b[i] == a[i] + 32)
                || (65 <= b[i] <= 90 && a[i] == b[i] + 32),
{
    let la = a.map_values(|c: u8| lower(c));
    let lb = b.map_values(|c: u8| lower(c));
    if same_name(a, b) {
        assert(la.len() == lb.len());
        assert forall|i: int| 0 <= i < a.len() implies #[trigger] a[i] == b[i] || (65 <= a[i] <= 90
            && b[i] == a[i] + 32) || (65 <= b[i] <= 90 && a[i] == b[i] + 32) by {
            assert(la[i] == lb[i]);
        }
    }
    if a.len() == b.len() && forall|i: int|
        0 <= i < a.len() ==> #[trigger] a[i] == b[i] || (65 <= a[i] <= 90 && b[i] == a[i] + 32) || (
        65 <= b[i] <= 90 && a[i] == b[i] + 32) {
        assert forall|i: int| 0 <= i < la.len() implies la[i] == lb[i] by {
            assert(a[i] == b[i] || a[i] != b[i]);
        }
        assert(la =~= lb);
    }
}

proof fn lemma_trimmed(before: Seq<u8>, inner: Seq<u8>, after: Seq<u8>)
    requires
        forall|i: int| 0 <= i < before.len() ==> is_blank(#[trigger] before[i]),
        forall|i: int| 0 <= i < after.len() ==> is_blank(#[trigger] after[i]),
        inner.len() > 0 ==> !is_blank(inner.first()) && !is_blank(inner.last()),
    ensures
        trimmed(before + inner + after) == inner,
    decreases before.len() + after.len(),
{
    let value = before + inner + after;
    if before.len() > 0 {
        assert(value.first() == before[0]);
        assert(value.drop_first() =~= before.drop_first() + inner + after);
        lemma_trimmed(before.drop_first(), inner, after);
    } else if inner.len() == 0 {
        if after.len() > 0 {
            assert(value.first() == after[0]);
            assert(value.drop_first() =~= before + inner + after.drop_first());
            lemma_trimmed(before, inner, after.drop_first());
        } else {
            assert(value =~= inner);
        }
    } else {
        assert(value.first() == inner.first());
        if after.len() > 0 {
            assert(value.last() == after.last());
            assert(value.drop_last() =~= before + inner + after.drop_last());
            lemma_trimmed(before, inner, after.drop_last());
        } else {
            assert(value =~= inner);
        }
    }
}

/// A value is trimmed of the spaces, tabs and carriage returns around it, and
/// of nothing else.
pub proof fn law_only_outer_blanks_are_trimmed(before: Seq<u8>, inner: Seq<u8>, after: Seq<u8>)
    requires
        forall|i: int|
            0 <= i < before.len() ==> #[trigger] before[i] == 32 || before[i] == 9 || before[i]
                == 13,
        forall|i: int|
            0 <= i < after.len() ==> #[trigger] after[i] == 32 || after[i] == 9 || after[i] == 13,
        inner.len() > 0 ==> {
            &&& inner.first() != 32 && inner.first() != 9 && inner.first() != 13
            &&& inner.last() != 32 && inner.last() != 9 && inner.last() != 13
        },
    ensures
        trimmed(before + inner + after) == inner,
{
    lemma_trimmed(before, inner, after);
}

/// The first line for a header counts: a block is searched line by line, a
/// line feed ending each.
pub proof fn law_first_line_counts(head: Seq<u8>, rest: Seq<u8>, name: Seq<u8>)
    ensures
        stored_value(head.push(10) + rest, name) == if stored_value(head, name) is Some {
            stored_value(head, name)
        } else {
            stored_value(rest, name)
        },
{
    lemma_pieces_concat(head, 10, rest, Delimiter::Line);
    lemma_first_value_concat(pieces(head, Delimiter::Line), pieces(rest, Delimiter::Line), name);
}

/// A line is for a header exactly where it begins with the header's name, in
/// whatever case, and a colon. Its value is what follows, without the blanks
/// around it.
pub proof fn law_line_is_a_name_a_colon_and_a_value(line: Seq<u8>, name: Seq<u8>)
    requires
        forall|i: int| 0 <= i < line.len() ==> #[trigger] line[i] != 10,
    ensures
        stored_value(line, name) is Some <==> {
            &&& name.len() < line.len()
            &&& line[name.len() as int] == 58
            &&& same_name(line.take(name.len() as int), name)
        },
        stored_value(line, name) matches Some(value) ==> value == trimmed(
            line.skip(name.len() as int + 1),
        ),
{
    lemma_pieces_whole(line, Delimiter::Line);
    let lines = seq![line];
    assert(lines.first() == line);
    assert(lines.drop_first() =~= Seq::<Seq<u8>>::empty());
    reveal_with_fuel(first_value, 2);
}

/// The header looked for is the first that has the name and, where empty
/// values do not count, a value: the value is that header's, and there is none
/// exactly where no header is such a one.
pub proof fn law_first_header_counts(
    headers: Seq<HeaderView>,
    name: Seq<u8>,
    empty: bool,
    i: int,
)
    requires
        0 <= i <= headers.len(),
        forall|j: int|
            0 <= j < i ==> !same_name((#[trigger] headers[j]).name, name) || (!empty
                && headers[j].value.len() == 0),
        i < headers.len() ==> same_name(headers[i].name, name) && (empty || headers[i].value.len()
            > 0),
    ensures
        i < headers.len() ==> named_value(headers, name, empty) == Some(headers[i].value),
        i == headers.len() ==> named_value(headers, name, empty) is None,
    decreases headers.len(),
{
    if headers.len() > 0 && i > 0 {
        let rest = headers.drop_first();
        assert(headers.first() == headers[0]);
        assert forall|j: int| 0 <= j < i - 1 implies !same_name((#[trigger] rest[j]).name, name)
            || (!empty && rest[j].value.len() == 0) by {
            assert(rest[j] == headers[j + 1]);
        }
        law_first_header_counts(rest, name, empty, i - 1);
    }
}

/// Headers are seen by their own names and values, in their order.
pub proof fn law_headers_keep_the_order(headers: Seq<Header>, i: int)
    ensures
        header_views(headers).len() == headers.len(),
        0 <= i < headers.len() ==> {
            &&& header_views(headers)[i].name == headers[i].name@
            &&& header_views(headers)[i].value == headers[i].value@
        },
{
}

} // verus!
