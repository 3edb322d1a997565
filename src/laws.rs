//! What holds of every record: laws over records written out in full, each
//! proved from the spec functions that the parsers' contracts use.
use crate::error::FilmParserError;
use crate::film::{
    decimal_value, film_of, is_digit, item_values, items_of, list_values, strip_quotes, text_of,
    FilmView,
};
use crate::grammar::{
    bracketed, field_value, fields_of_segments, kind_of_label, list_field, list_items,
    parse_segment, record_fields, segment_label, segment_value, segments, text_field, FieldKind,
    FieldView,
};
use crate::text::{
    free_of, is_blank, is_space, join, lemma_free_of_add, lemma_next_cut_after, lemma_split_cons,
    lemma_split_free, lemma_split_join, lemma_split_pieces_free, lemma_split_unquoted,
    lemma_trim_after_space, lemma_trim_free_of, lemma_trim_keeps, lemma_trim_padded,
    lemma_trim_twice, split, trim, trimmed,
};
use vstd::prelude::*;

verus! {

proof fn lemma_absent_kind(fs: Seq<FieldView>, k: FieldKind)
    requires
        forall|j: int| 0 <= j < fs.len() ==> (#[trigger] fs[j]).kind != k,
    ensures
        text_of(fs, k).len() == 0,
        items_of(fs, k).len() == 0,
    decreases fs.len(),
{
    if fs.len() > 0 {
        assert(fs.last() == fs[fs.len() - 1]);
        lemma_absent_kind(fs.drop_last(), k);
    }
}

/// An item without commas or double quotes gives itself, trimmed.
proof fn lemma_plain_item(p: Seq<char>)
    requires
        free_of(p, ','),
        free_of(p, '"'),
    ensures
        item_values(p) == seq![trim(p)],
{
    if p.len() >= 2 {
        assert(p[0] != '"');
    }
    assert(strip_quotes(p) == p);
    lemma_split_free(p, ',', false);
    assert(item_values(p) =~= seq![trim(p)]);
}

/// The values of a list whose items hold no comma and no double quote are
/// those items, trimmed, in the order written and with repeats kept.
pub proof fn list_keeps_items_in_order(items: Seq<Seq<char>>)
    requires
        forall|j: int| 0 <= j < items.len() ==> free_of(#[trigger] items[j], ','),
        forall|j: int| 0 <= j < items.len() ==> free_of(#[trigger] items[j], '"'),
    ensures
        list_values(items) == items.map_values(|p: Seq<char>| trim(p)),
    decreases items.len(),
{
    if items.len() > 0 {
        let init = items.drop_last();
        let last = items.last();
        assert(items =~= init.push(last));
        list_keeps_items_in_order(init);
        init.lemma_flat_map_push(|p: Seq<char>| item_values(p), last);
        lemma_plain_item(last);
        assert(list_values(items) =~= items.map_values(|p: Seq<char>| trim(p)));
    } else {
        assert(list_values(items) =~= items.map_values(|p: Seq<char>| trim(p)));
    }
}

/// A quoted list item is cut at its comma all the same: the quotes go, and
/// each piece is trimmed.
pub proof fn quoted_item_is_cut_at_commas(a: Seq<char>, b: Seq<char>)
    requires
        free_of(a, ','),
        free_of(b, ','),
    ensures
        item_values(seq!['"'] + a + seq![','] + b + seq!['"']) == seq![trim(a), trim(b)],
{
    let p = seq!['"'] + a + seq![','] + b + seq!['"'];
    assert(strip_quotes(p) =~= a + seq![','] + b);
    lemma_split_cons(a, b, ',');
    lemma_split_free(b, ',', false);
    assert(seq![a] + seq![b] =~= seq![a, b]);
    assert(item_values(p) =~= seq![trim(a), trim(b)]);
}

proof fn lemma_label_facts(k: FieldKind)
    ensures
        k.label().len() > 0,
        trimmed(k.label()),
        free_of(k.label(), ':'),
        free_of(k.label(), ';'),
        kind_of_label(k.label()) == Some(k),
{
    assert(FieldKind::Title.label()[0] == 'T');
    assert(FieldKind::Genre.label()[0] == 'G');
    assert(FieldKind::Stars.label()[0] == 'S');
}

/// Where exactly one field of `fs`, the one at `j`, has kind `k` from `j`
/// on, extraction takes that one.
proof fn lemma_text_of_at(fs: Seq<FieldView>, k: FieldKind, j: int)
    requires
        0 <= j < fs.len(),
        fs[j].kind == k,
        forall|i: int| j < i < fs.len() ==> (#[trigger] fs[i]).kind != k,
    ensures
        text_of(fs, k) == fs[j].text,
        items_of(fs, k) == fs[j].items,
    decreases fs.len(),
{
    if j < fs.len() - 1 {
        assert(fs.last() == fs[fs.len() - 1]);
        let init = fs.drop_last();
        assert(init[j] == fs[j]);
        assert forall|i: int| j < i < init.len() implies (#[trigger] init[i]).kind != k by {
            assert(init[i] == fs[i]);
        }
        lemma_text_of_at(init, k, j);
    }
}

proof fn lemma_field_text_free(k: FieldKind, v: Seq<char>)
    requires
        free_of(v, ';'),
    ensures
        free_of(field_text(k, v), ';'),
{
    lemma_label_facts(k);
    lemma_free_of_add(k.label(), seq![':', ' '], ';');
    lemma_free_of_add(k.label() + seq![':', ' '], v, ';');
}

proof fn lemma_year_plain(year: Seq<char>)
    requires
        plain_year(year),
    ensures
        free_of(year, ';'),
        trimmed(year),
{
    assert forall|i: int| 0 <= i < year.len() implies #[trigger] year[i] != ';' by {
        assert(is_digit(year[i]));
    }
    assert(is_digit(year[0]));
    assert(is_digit(year[year.len() - 1]));
}

/// A field written `Label: value`.
pub open spec fn field_text(k: FieldKind, v: Seq<char>) -> Seq<char> {
    k.label() + seq![':', ' '] + v
}

/// A list written `[content]`.
pub open spec fn list_text(content: Seq<char>) -> Seq<char> {
    seq!['['] + content + seq![']']
}

/// A record of the fields `kinds`, with the values `values`, each written
/// `Label: value`, joined by `; `.
pub open spec fn record_of(kinds: Seq<FieldKind>, values: Seq<Seq<char>>) -> Seq<char> {
    join(Seq::new(kinds.len(), |j: int| field_text(kinds[j], values[j])), seq![';', ' '])
}

/// The seven kinds of field, in order.
pub open spec fn all_kinds() -> Seq<FieldKind> {
    seq![
        FieldKind::Title,
        FieldKind::Year,
        FieldKind::Director,
        FieldKind::Writer,
        FieldKind::Genre,
        FieldKind::Stars,
        FieldKind::Description,
    ]
}

/// The seven values of a full record, the two lists in brackets.
pub open spec fn full_values(
    title: Seq<char>,
    year: Seq<char>,
    director: Seq<char>,
    writer: Seq<char>,
    genre: Seq<char>,
    stars: Seq<char>,
    description: Seq<char>,
) -> Seq<Seq<char>> {
    seq![title, year, director, writer, list_text(genre), list_text(stars), description]
}

/// A record written in full: the seven fields in order.
pub open spec fn record_text(
    title: Seq<char>,
    year: Seq<char>,
    director: Seq<char>,
    writer: Seq<char>,
    genre: Seq<char>,
    stars: Seq<char>,
    description: Seq<char>,
) -> Seq<char> {
    record_of(all_kinds(), full_values(title, year, director, writer, genre, stars, description))
}

/// A text value: not blank, and without `;`.
pub open spec fn plain_value(v: Seq<char>) -> bool {
    !is_blank(v) && free_of(v, ';')
}

/// The content of a list: not blank, without `;` and without double quotes.
pub open spec fn plain_list(content: Seq<char>) -> bool {
    !is_blank(content) && free_of(content, ';') && free_of(content, '"')
}

/// A year written as digits, of a value from 1 to `u32::MAX`.
pub open spec fn plain_year(y: Seq<char>) -> bool {
    &&& y.len() > 0
    &&& forall|i: int| 0 <= i < y.len() ==> is_digit(#[trigger] y[i])
    &&& 1 <= decimal_value(y) <= u32::MAX
}

/// Seven values that make a well-formed record.
pub open spec fn plain_record(
    title: Seq<char>,
    year: Seq<char>,
    director: Seq<char>,
    writer: Seq<char>,
    genre: Seq<char>,
    stars: Seq<char>,
    description: Seq<char>,
) -> bool {
    &&& plain_value(title)
    &&& plain_year(year)
    &&& plain_value(director)
    &&& plain_value(writer)
    &&& plain_list(genre)
    &&& plain_list(stars)
    &&& plain_value(description)
}

/// The items of a list content without quotes: its pieces between commas,
/// trimmed.
pub open spec fn list_pieces(content: Seq<char>) -> Seq<Seq<char>> {
    split(content, ',', false).map_values(|p: Seq<char>| trim(p))
}

/// A field written `Label: value`, maybe after a space, has that label and
/// the value after its colon.
proof fn lemma_parse_field(pad: Seq<char>, k: FieldKind, v: Seq<char>)
    requires
        pad == Seq::<char>::empty() || pad == seq![' '],
    ensures
        segment_label(pad + field_text(k, v)) == Some(k),
        segment_value(pad + field_text(k, v)) == seq![' '] + v,
{
    lemma_label_facts(k);
    let s = pad + field_text(k, v);
    let a = pad + k.label();
    let b = seq![' '] + v;
    assert(s =~= a + seq![':'] + b);
    lemma_free_of_add(pad, k.label(), ':');
    lemma_next_cut_after(a, b, ':', 0);
    assert(s.take(a.len() as int) =~= a);
    lemma_trim_padded(pad, k.label());
    assert(s.skip(a.len() as int + 1) =~= b);
}

/// The fields of a record written field by field, in order: each field is
/// what its value gives, and the record fails the grammar where one does
/// not give a field.
proof fn lemma_record_of(kinds: Seq<FieldKind>, values: Seq<Seq<char>>)
    requires
        kinds.len() == values.len(),
        kinds.len() >= 1,
        forall|j: int| 0 < j < kinds.len() ==> kinds[j - 1].rank() < (#[trigger] kinds[j]).rank(),
        forall|j: int| 0 <= j < values.len() ==> free_of(#[trigger] values[j], ';'),
    ensures
        !is_blank(record_of(kinds, values)),
        (forall|j: int| 0 <= j < kinds.len() ==> (#[trigger] field_value(kinds[j], seq![' '] + values[j])) is Some)
            ==> record_fields(record_of(kinds, values)) == Some(
            Seq::new(kinds.len(), |j: int| field_value(kinds[j], seq![' '] + values[j])->0),
        ),
        forall|j: int|
            0 <= j < kinds.len() && (#[trigger] field_value(kinds[j], seq![' '] + values[j])) is None
                ==> record_fields(record_of(kinds, values)) is None,
{
    reveal(parse_segment);
    reveal(fields_of_segments);
    let n = kinds.len() as int;
    let texts = Seq::new(kinds.len(), |j: int| field_text(kinds[j], values[j]));
    let r = record_of(kinds, values);
    assert forall|j: int| 0 <= j < n implies free_of(#[trigger] texts[j], ';') by {
        lemma_field_text_free(kinds[j], values[j]);
    }
    assert(Seq::<char>::empty() + r =~= r);
    lemma_split_join(Seq::<char>::empty(), texts, ';');
    let parts = split(r, ';', false);
    assert(parts.len() == n);
    lemma_label_facts(kinds[n - 1]);
    lemma_label_facts(kinds[0]);
    if n == 1 {
        assert(parts.last() =~= texts[0]);
        assert(parts.last()[0] == kinds[0].label()[0]);
    } else {
        assert(parts.last() == seq![' '] + texts[n - 1]);
        assert(parts.last()[1] == kinds[n - 1].label()[0]);
    }
    assert(segments(r) == parts);
    assert(r[0] == texts[0][0]);
    assert forall|j: int| 0 <= j < n implies #[trigger] parse_segment(parts[j]) == field_value(
        kinds[j],
        seq![' '] + values[j],
    ) by {
        let pad = if j == 0 {
            Seq::<char>::empty()
        } else {
            seq![' ']
        };
        if j == 0 {
            assert(parts[0] =~= pad + texts[0]);
        } else {
            assert(parts[j] == pad + texts[j]);
        }
        lemma_parse_field(pad, kinds[j], values[j]);
    }
    let fs = Seq::new(kinds.len(), |j: int| field_value(kinds[j], seq![' '] + values[j])->0);
    if forall|j: int| 0 <= j < n ==> (#[trigger] field_value(kinds[j], seq![' '] + values[j])) is Some {
        assert(parts.map_values(|x: Seq<char>| parse_segment(x)->0) =~= fs);
    }
    assert forall|j: int|
        0 <= j < n && (#[trigger] field_value(kinds[j], seq![' '] + values[j])) is None implies record_fields(r) is None by {
        assert(parse_segment(parts[j]) is None);
    }
}

/// The value of a plain list field gives its pieces, and they come out of
/// extraction as they are.
proof fn lemma_list_value(content: Seq<char>)
    requires
        plain_list(content),
    ensures
        list_items(trim(seq![' '] + list_text(content))) == Some(list_pieces(content)),
        list_values(list_pieces(content)) == list_pieces(content),
        list_pieces(content).len() > 0,
        free_of(list_text(content), ';'),
{
    let v = list_text(content);
    lemma_trim_padded(seq![' '], v);
    assert(v.subrange(1, v.len() - 1) =~= content);
    lemma_split_unquoted(content, ',');
    let items = list_pieces(content);
    lemma_split_pieces_free(content, ',', ',');
    lemma_split_pieces_free(content, ',', '"');
    assert forall|j: int| 0 <= j < items.len() implies free_of(#[trigger] items[j], ',') && free_of(
        items[j],
        '"',
    ) && trim(items[j]) == items[j] by {
        let piece = split(content, ',', false)[j];
        lemma_trim_free_of(piece, ',');
        lemma_trim_free_of(piece, '"');
        lemma_trim_twice(piece);
    }
    list_keeps_items_in_order(items);
    assert(items.map_values(|p: Seq<char>| trim(p)) =~= items);
    lemma_free_of_add(seq!['['], content, ';');
    lemma_free_of_add(seq!['['] + content, seq![']'], ';');
}

/// A text that is not blank is not empty once trimmed.
proof fn lemma_trim_not_empty(v: Seq<char>)
    requires
        !is_blank(v),
    ensures
        trim(v).len() > 0,
{
    let i = choose|i: int| 0 <= i < v.len() && !is_space(#[trigger] v[i]);
    lemma_trim_keeps(v, i);
}

/// The fields that the seven values of a full record give.
pub open spec fn full_fields(
    title: Seq<char>,
    year: Seq<char>,
    director: Seq<char>,
    writer: Seq<char>,
    genre: Seq<char>,
    stars: Seq<char>,
    description: Seq<char>,
) -> Seq<FieldView> {
    seq![
        text_field(FieldKind::Title, trim(title)),
        text_field(FieldKind::Year, trim(year)),
        text_field(FieldKind::Director, trim(director)),
        text_field(FieldKind::Writer, trim(writer)),
        list_field(FieldKind::Genre, list_pieces(genre)),
        list_field(FieldKind::Stars, list_pieces(stars)),
        text_field(FieldKind::Description, trim(description)),
    ]
}

proof fn lemma_full_values(
    title: Seq<char>,
    year: Seq<char>,
    director: Seq<char>,
    writer: Seq<char>,
    genre: Seq<char>,
    stars: Seq<char>,
    description: Seq<char>,
)
    requires
        plain_list(genre),
        plain_list(stars),
    ensures
        forall|j: int|
            0 <= j < 7 ==> #[trigger] field_value(
                all_kinds()[j],
                seq![' '] + full_values(title, year, director, writer, genre, stars, description)[j],
            ) == Some(full_fields(title, year, director, writer, genre, stars, description)[j]),
{
    let vs = full_values(title, year, director, writer, genre, stars, description);
    let fs = full_fields(title, year, director, writer, genre, stars, description);
    lemma_trim_after_space(title);
    lemma_trim_after_space(year);
    lemma_trim_after_space(director);
    lemma_trim_after_space(writer);
    lemma_trim_after_space(description);
    lemma_list_value(genre);
    lemma_list_value(stars);
    assert forall|j: int| 0 <= j < 7 implies #[trigger] field_value(all_kinds()[j], seq![' '] + vs[j])
        == Some(fs[j]) by {
        if j == 0 {
        } else if j == 1 {
        } else if j == 2 {
        } else if j == 3 {
        } else if j == 4 {
        } else if j == 5 {
        } else {
        }
    }
}

proof fn lemma_all_kinds()
    ensures
        forall|j: int| 0 <= j < 7 ==> (#[trigger] all_kinds()[j]).rank() == j,
{
}

/// The grammar reads a record written in full into its seven fields.
proof fn lemma_full_record_fields(
    title: Seq<char>,
    year: Seq<char>,
    director: Seq<char>,
    writer: Seq<char>,
    genre: Seq<char>,
    stars: Seq<char>,
    description: Seq<char>,
)
    requires
        plain_value(title),
        free_of(year, ';'),
        plain_value(director),
        plain_value(writer),
        plain_list(genre),
        plain_list(stars),
        plain_value(description),
    ensures
        !is_blank(record_text(title, year, director, writer, genre, stars, description)),
        record_fields(record_text(title, year, director, writer, genre, stars, description))
            == Some(full_fields(title, year, director, writer, genre, stars, description)),
{
    let vs = full_values(title, year, director, writer, genre, stars, description);
    let fs = full_fields(title, year, director, writer, genre, stars, description);
    lemma_all_kinds();
    lemma_list_value(genre);
    lemma_list_value(stars);
    assert forall|j: int| 0 <= j < 7 implies free_of(#[trigger] vs[j], ';') by {}
    lemma_full_values(title, year, director, writer, genre, stars, description);
    lemma_record_of(all_kinds(), vs);
    assert(Seq::new(7, |j: int| field_value(all_kinds()[j], seq![' '] + vs[j])->0) =~= fs);
}

/// A record written in full, with well-formed values, parses into a film
/// whose every field is the value written, trimmed; a list is its pieces
/// between commas, trimmed, in order.
pub proof fn full_record_parses_exactly(
    title: Seq<char>,
    year: Seq<char>,
    director: Seq<char>,
    writer: Seq<char>,
    genre: Seq<char>,
    stars: Seq<char>,
    description: Seq<char>,
)
    requires
        plain_record(title, year, director, writer, genre, stars, description),
    ensures
        film_of(record_text(title, year, director, writer, genre, stars, description)) == Ok::<
            _,
            FilmParserError,
        >(
            FilmView {
                title: trim(title),
                year: decimal_value(year) as u32,
                director: trim(director),
                writer: trim(writer),
                genre: list_pieces(genre),
                stars: list_pieces(stars),
                description: trim(description),
            },
        ),
{
    let fs = full_fields(title, year, director, writer, genre, stars, description);
    lemma_year_plain(year);
    lemma_trim_padded(Seq::<char>::empty(), year);
    assert(Seq::<char>::empty() + year =~= year);
    lemma_full_record_fields(title, year, director, writer, genre, stars, description);
    lemma_list_value(genre);
    lemma_list_value(stars);
    lemma_trim_not_empty(title);
    lemma_trim_not_empty(director);
    lemma_trim_not_empty(writer);
    lemma_trim_not_empty(description);
    lemma_text_of_at(fs, FieldKind::Title, 0);
    lemma_text_of_at(fs, FieldKind::Year, 1);
    lemma_text_of_at(fs, FieldKind::Director, 2);
    lemma_text_of_at(fs, FieldKind::Writer, 3);
    lemma_text_of_at(fs, FieldKind::Genre, 4);
    lemma_text_of_at(fs, FieldKind::Stars, 5);
    lemma_text_of_at(fs, FieldKind::Description, 6);
}

/// A record written in full but for one field, whichever it is, is refused
/// as `MissingFields`.
pub proof fn missing_field_is_reported(
    title: Seq<char>,
    year: Seq<char>,
    director: Seq<char>,
    writer: Seq<char>,
    genre: Seq<char>,
    stars: Seq<char>,
    description: Seq<char>,
    m: int,
)
    requires
        plain_record(title, year, director, writer, genre, stars, description),
        0 <= m < 7,
    ensures
        film_of(
            record_of(
                all_kinds().remove(m),
                full_values(title, year, director, writer, genre, stars, description).remove(m),
            ),
        ) == Err::<FilmView, _>(FilmParserError::MissingFields),
{
    let vs = full_values(title, year, director, writer, genre, stars, description);
    let fs = full_fields(title, year, director, writer, genre, stars, description);
    let kinds = all_kinds().remove(m);
    let values = vs.remove(m);
    let gone = all_kinds()[m];
    lemma_all_kinds();
    lemma_year_plain(year);
    lemma_trim_padded(Seq::<char>::empty(), year);
    assert(Seq::<char>::empty() + year =~= year);
    lemma_list_value(genre);
    lemma_list_value(stars);
    lemma_full_values(title, year, director, writer, genre, stars, description);
    assert forall|j: int| 0 <= j < 6 implies (#[trigger] kinds[j]).rank() == if j < m {
        j
    } else {
        j + 1
    } && field_value(kinds[j], seq![' '] + values[j]) == Some(fs.remove(m)[j]) && free_of(
        values[j],
        ';',
    ) by {
        if j < m {
            assert(kinds[j] == all_kinds()[j]);
            assert(values[j] == vs[j]);
        } else {
            assert(kinds[j] == all_kinds()[j + 1]);
            assert(values[j] == vs[j + 1]);
        }
    }
    lemma_record_of(kinds, values);
    let fs2 = fs.remove(m);
    assert(Seq::new(6, |j: int| field_value(kinds[j], seq![' '] + values[j])->0) =~= fs2);
    assert forall|j: int| 0 <= j < 6 implies (#[trigger] fs2[j]).kind == kinds[j] by {
        if j < m {
            assert(fs2[j] == fs[j]);
        } else {
            assert(fs2[j] == fs[j + 1]);
        }
    }
    assert forall|j: int| 0 <= j < 6 implies (#[trigger] fs2[j]).kind != gone by {
        assert(fs2[j].kind.rank() != gone.rank());
    }
    lemma_absent_kind(fs2, gone);
    if m != 1 {
        let at = if m == 0 {
            0int
        } else {
            1int
        };
        assert(fs2[at] == fs[1]);
        lemma_text_of_at(fs2, FieldKind::Year, at);
    }
    let empty = Seq::<Seq<char>>::empty();
    assert(list_values(empty) =~= empty);
}

/// A record written in full whose year holds a character that is neither a
/// digit nor a space is refused as `InvalidYear`; its year is never read as
/// zero.
pub proof fn non_digit_year_is_invalid(
    title: Seq<char>,
    year: Seq<char>,
    director: Seq<char>,
    writer: Seq<char>,
    genre: Seq<char>,
    stars: Seq<char>,
    description: Seq<char>,
    i: int,
)
    requires
        plain_value(title),
        free_of(year, ';'),
        plain_value(director),
        plain_value(writer),
        plain_list(genre),
        plain_list(stars),
        plain_value(description),
        0 <= i < year.len(),
        !is_digit(year[i]),
        !is_space(year[i]),
    ensures
        film_of(record_text(title, year, director, writer, genre, stars, description)) == Err::<
            FilmView,
            _,
        >(FilmParserError::InvalidYear),
{
    let fs = full_fields(title, year, director, writer, genre, stars, description);
    lemma_full_record_fields(title, year, director, writer, genre, stars, description);
    lemma_text_of_at(fs, FieldKind::Year, 1);
    let j = lemma_trim_keeps(year, i);
    assert(!is_digit(trim(year)[j]));
}

/// A record written in full but for a list value that is not enclosed in
/// brackets is a syntax error.
pub proof fn unbracketed_list_is_syntax_error(
    title: Seq<char>,
    year: Seq<char>,
    director: Seq<char>,
    writer: Seq<char>,
    genre: Seq<char>,
    stars: Seq<char>,
    description: Seq<char>,
    m: int,
    v: Seq<char>,
)
    requires
        plain_record(title, year, director, writer, genre, stars, description),
        m == 4 || m == 5,
        free_of(v, ';'),
        !bracketed(trim(v)),
    ensures
        film_of(
            record_of(
                all_kinds(),
                full_values(title, year, director, writer, genre, stars, description).update(m, v),
            ),
        ) == Err::<FilmView, _>(FilmParserError::SyntaxError),
{
    let vs = full_values(title, year, director, writer, genre, stars, description);
    let values = vs.update(m, v);
    lemma_all_kinds();
    lemma_year_plain(year);
    lemma_list_value(genre);
    lemma_list_value(stars);
    assert forall|j: int| 0 <= j < 7 implies free_of(#[trigger] values[j], ';') by {}
    lemma_trim_after_space(v);
    assert(field_value(all_kinds()[m], seq![' '] + values[m]) is None);
    lemma_record_of(all_kinds(), values);
}

} // verus!
