//! Films, and how the fields of a parsed record become one: extraction of
//! each field, the year, the list items, and the check that nothing is
//! missing.
use crate::error::FilmParserError;
use crate::grammar::{
    parse_record_spec, strings_view, Field, FieldKind, FieldView, FilmParser, ParsedRecord,
};
use crate::text::{chars_of, split, split_span, spans_view, text_of_span, trim, trim_span};
use vstd::prelude::*;

verus! {

/// A film, with every field present.
#[derive(Debug, Clone, PartialEq, Eq)]
pub struct Film {
    /// The title of the film.
    pub title: String,
    /// The release year of the film.
    pub year: u32,
    /// The director of the film.
    pub director: String,
    /// The writer of the film.
    pub writer: String,
    /// The genres of the film, in the order they were written.
    pub genre: Vec<String>,
    /// The main cast of the film, in the order they were written.
    pub stars: Vec<String>,
    /// A brief description of the film.
    pub description: String,
}

/// The value of a `Film`.
pub struct FilmView {
    pub title: Seq<char>,
    pub year: u32,
    pub director: Seq<char>,
    pub writer: Seq<char>,
    pub genre: Seq<Seq<char>>,
    pub stars: Seq<Seq<char>>,
    pub description: Seq<char>,
}

impl FilmView {
    /// Every field holds more than its default: texts and lists are not
    /// empty, the year is not zero.
    pub open spec fn complete(self) -> bool {
        &&& self.title.len() > 0
        &&& self.year != 0
        &&& self.director.len() > 0
        &&& self.writer.len() > 0
        &&& self.genre.len() > 0
        &&& self.stars.len() > 0
        &&& self.description.len() > 0
    }
}

impl View for Film {
    type V = FilmView;

    open spec fn view(&self) -> FilmView {
        FilmView {
            title: self.title@,
            year: self.year,
            director: self.director@,
            writer: self.writer@,
            genre: strings_view(self.genre@),
            stars: strings_view(self.stars@),
            description: self.description@,
        }
    }
}

pub open spec fn is_digit(c: char) -> bool {
    '0' <= c && c <= '9'
}

/// The value of the decimal digits `s`.
pub open spec fn decimal_value(s: Seq<char>) -> nat
    decreases s.len(),
{
    if s.len() == 0 {
        0
    } else {
        decimal_value(s.drop_last()) * 10 + ((s.last() as u32 - '0' as u32) as nat)
    }
}

/// The year that the text of a `Year` field gives: zero where it is empty,
/// `InvalidYear` where it is not a run of digits whose value fits in a `u32`.
pub open spec fn year_value(t: Seq<char>) -> Result<u32, FilmParserError> {
    if t.len() == 0 {
        Ok(0)
    } else if (forall|i: int| 0 <= i < t.len() ==> is_digit(#[trigger] t[i])) && decimal_value(t)
        <= u32::MAX {
        Ok(decimal_value(t) as u32)
    } else {
        Err(FilmParserError::InvalidYear)
    }
}

/// A list item without its one pair of enclosing double quotes, if it has one.
pub open spec fn strip_quotes(p: Seq<char>) -> Seq<char> {
    if p.len() >= 2 && p[0] == '"' && p.last() == '"' {
        p.subrange(1, p.len() - 1)
    } else {
        p
    }
}

/// The values one list item gives: unquoted, cut at every comma, trimmed.
/// Quotes do not keep a comma from cutting.
pub open spec fn item_values(p: Seq<char>) -> Seq<Seq<char>> {
    split(strip_quotes(p), ',', false).map_values(|x: Seq<char>| trim(x))
}

/// The values a list of items gives, in order.
pub open spec fn list_values(items: Seq<Seq<char>>) -> Seq<Seq<char>> {
    items.flat_map(|p: Seq<char>| item_values(p))
}

/// The text of the last field of kind `k`, or the empty text.
pub open spec fn text_of(fs: Seq<FieldView>, k: FieldKind) -> Seq<char>
    decreases fs.len(),
{
    if fs.len() == 0 {
        Seq::empty()
    } else if fs.last().kind == k {
        fs.last().text
    } else {
        text_of(fs.drop_last(), k)
    }
}

/// The items of the last field of kind `k`, or none.
pub open spec fn items_of(fs: Seq<FieldView>, k: FieldKind) -> Seq<Seq<char>>
    decreases fs.len(),
{
    if fs.len() == 0 {
        Seq::empty()
    } else if fs.last().kind == k {
        fs.last().items
    } else {
        items_of(fs.drop_last(), k)
    }
}

/// The film that the fields `fs` make up, once each is extracted.
pub open spec fn film_of_fields(fs: Seq<FieldView>) -> FilmView {
    FilmView {
        title: text_of(fs, FieldKind::Title),
        year: year_value(text_of(fs, FieldKind::Year))->Ok_0,
        director: text_of(fs, FieldKind::Director),
        writer: text_of(fs, FieldKind::Writer),
        genre: list_values(items_of(fs, FieldKind::Genre)),
        stars: list_values(items_of(fs, FieldKind::Stars)),
        description: text_of(fs, FieldKind::Description),
    }
}

/// The outcome of extraction and validation on the fields `fs`:
/// `InvalidYear` first, then `MissingFields`.
pub open spec fn film_from_fields(fs: Seq<FieldView>) -> Result<FilmView, FilmParserError> {
    if year_value(text_of(fs, FieldKind::Year)) is Err {
        Err(FilmParserError::InvalidYear)
    } else if !film_of_fields(fs).complete() {
        Err(FilmParserError::MissingFields)
    } else {
        Ok(film_of_fields(fs))
    }
}

/// The outcome of parsing the record `r`.
pub open spec fn film_of(r: Seq<char>) -> Result<FilmView, FilmParserError> {
    match parse_record_spec(r) {
        Ok(fs) => film_from_fields(fs),
        Err(e) => Err(e),
    }
}

proof fn lemma_decimal_value_take(t: Seq<char>, i: int)
    requires
        0 <= i <= t.len(),
    ensures
        decimal_value(t.take(i)) <= decimal_value(t),
    decreases t.len() - i,
{
    if i < t.len() {
        lemma_decimal_value_take(t, i + 1);
        assert(t.take(i + 1).drop_last() =~= t.take(i));
    } else {
        assert(t.take(i) =~= t);
    }
}

/// Reads the text of a `Year` field: zero where it is empty, `InvalidYear`
/// where it is not a run of digits that fits in a `u32`.
pub fn parse_year(text: &str) -> (r: Result<u32, FilmParserError>)
    ensures
        r == year_value(text@),
{
    let cs = chars_of(text);
    let n = cs.len();
    let mut i: usize = 0;
    while i < n
        invariant
            n == cs.len(),
            cs@ == text@,
            0 <= i <= n,
            forall|j: int| 0 <= j < i ==> is_digit(#[trigger] cs@[j]),
        decreases n - i,
    {
        if !('0' <= cs[i] && cs[i] <= '9') {
            return Err(FilmParserError::InvalidYear);
        }
        i = i + 1;
    }
    let mut value: u64 = 0;
    let mut k: usize = 0;
    while k < n
        invariant
            n == cs.len(),
            cs@ == text@,
            0 <= k <= n,
            forall|j: int| 0 <= j < n ==> is_digit(#[trigger] cs@[j]),
            value as nat == decimal_value(cs@.take(k as int)),
            value <= u32::MAX,
        decreases n - k,
    {
        assert(cs@.take(k + 1).drop_last() =~= cs@.take(k as int));
        assert(is_digit(cs@[k as int]));
        let digit = (cs[k] as u32 - '0' as u32) as u64;
        let next = value * 10 + digit;
        if next > u32::MAX as u64 {
            proof {
                lemma_decimal_value_take(cs@, k + 1);
            }
            return Err(FilmParserError::InvalidYear);
        }
        value = next;
        k = k + 1;
    }
    assert(cs@.take(n as int) =~= cs@);
    Ok(value as u32)
}

/// The values one list item gives: the item without its enclosing double
/// quotes, cut at every comma, each piece trimmed.
pub fn split_item(item: &str) -> (r: Vec<String>)
    ensures
        strings_view(r@) == item_values(item@),
{
    let cs = chars_of(item);
    let n = cs.len();
    let (lo, hi) = if n >= 2 && cs[0] == '"' && cs[n - 1] == '"' {
        (1, n - 1)
    } else {
        (0, n)
    };
    assert(cs@.subrange(lo as int, hi as int) =~= strip_quotes(item@));
    let pieces = split_span(&cs, lo, hi, ',', false);
    let ghost values = item_values(item@);
    let mut out: Vec<String> = Vec::new();
    let mut j: usize = 0;
    while j < pieces.len()
        invariant
            cs@ == item@,
            hi <= cs.len(),
            spans_view(cs@, pieces@) == split(strip_quotes(item@), ',', false),
            forall|k: int| 0 <= k < pieces.len() ==> lo <= (#[trigger] pieces@[k]).0 <= pieces@[k].1 <= hi,
            values == item_values(item@),
            values.len() == pieces.len(),
            0 <= j <= pieces.len(),
            strings_view(out@) == values.take(j as int),
        decreases pieces.len() - j,
    {
        let (a, b) = pieces[j];
        assert(spans_view(cs@, pieces@)[j as int] == cs@.subrange(a as int, b as int));
        let (p, q) = trim_span(&cs, a, b);
        let piece = text_of_span(item, p, q);
        let ghost before = out@;
        out.push(piece);
        assert(strings_view(out@) =~= strings_view(before).push(piece@));
        assert(values.take(j + 1) =~= values.take(j as int).push(values[j as int]));
        j = j + 1;
    }
    assert(values.take(j as int) =~= values);
    out
}

impl Film {
    /// Makes a film of seven values that hold more than their defaults.
    pub fn new(
        title: String,
        year: u32,
        director: String,
        writer: String,
        genre: Vec<String>,
        stars: Vec<String>,
        description: String,
    ) -> (r: Film)
        requires
            title@.len() > 0,
            year != 0,
            director@.len() > 0,
            writer@.len() > 0,
            genre@.len() > 0,
            stars@.len() > 0,
            description@.len() > 0,
        ensures
            r.title == title,
            r.year == year,
            r.director == director,
            r.writer == writer,
            r.genre == genre,
            r.stars == stars,
            r.description == description,
            r@.complete(),
    {
        Film { title, year, director, writer, genre, stars, description }
    }

    /// The values of a list field, from the item spans the grammar found:
    /// each item unquoted, cut at every comma, each piece trimmed, in order.
    pub fn parse_vector_field(items: &Vec<String>) -> (r: Vec<String>)
        ensures
            strings_view(r@) == list_values(strings_view(items@)),
    {
        let ghost spans = strings_view(items@);
        let mut out: Vec<String> = Vec::new();
        let mut j: usize = 0;
        while j < items.len()
            invariant
                spans == strings_view(items@),
                0 <= j <= items.len(),
                strings_view(out@) == list_values(spans.take(j as int)),
            decreases items.len() - j,
        {
            let values = split_item(items[j].as_str());
            proof {
                spans.lemma_flat_map_take_append(|p: Seq<char>| item_values(p), j as int);
            }
            let ghost before = out@;
            let mut k: usize = 0;
            while k < values.len()
                invariant
                    0 <= k <= values.len(),
                    strings_view(out@) == strings_view(before) + strings_view(values@).take(k as int),
                decreases values.len() - k,
            {
                let ghost mid = out@;
                out.push(values[k].clone());
                assert(strings_view(out@) =~= strings_view(mid).push(values@[k as int]@));
                assert(strings_view(values@).take(k + 1) =~= strings_view(values@).take(k as int).push(values@[k as int]@));
                k = k + 1;
            }
            assert(strings_view(values@).take(k as int) =~= strings_view(values@));
            j = j + 1;
        }
        assert(spans.take(j as int) =~= spans);
        out
    }

    /// Extracts, checks and assembles the fields of a parsed record:
    /// `InvalidYear` where the year is not a valid number, else
    /// `MissingFields` where a field is absent or holds only its default.
    pub fn parse_to_struct(record: &ParsedRecord) -> (r: Result<Film, FilmParserError>)
        ensures
            match r {
                Ok(f) => film_from_fields(record@) == Ok::<_, FilmParserError>(f@),
                Err(e) => film_from_fields(record@) == Err::<FilmView, _>(e),
            },
    {
        let ghost fs = record@;
        let mut title = String::new();
        let mut year_text = String::new();
        let mut director = String::new();
        let mut writer = String::new();
        let mut genre: Vec<String> = Vec::new();
        let mut stars: Vec<String> = Vec::new();
        let mut description = String::new();
        let mut j: usize = 0;
        while j < record.fields.len()
            invariant
                fs == record@,
                0 <= j <= record.fields.len(),
                title@ == text_of(fs.take(j as int), FieldKind::Title),
                year_text@ == text_of(fs.take(j as int), FieldKind::Year),
                director@ == text_of(fs.take(j as int), FieldKind::Director),
                writer@ == text_of(fs.take(j as int), FieldKind::Writer),
                strings_view(genre@) == list_values(items_of(fs.take(j as int), FieldKind::Genre)),
                strings_view(stars@) == list_values(items_of(fs.take(j as int), FieldKind::Stars)),
                description@ == text_of(fs.take(j as int), FieldKind::Description),
            decreases record.fields.len() - j,
        {
            let ghost next = fs.take(j + 1);
            assert(next.drop_last() =~= fs.take(j as int));
            assert(next.last() == record.fields@[j as int]@);
            match &record.fields[j] {
                Field::Title(s) => title = s.clone(),
                Field::Year(s) => year_text = s.clone(),
                Field::Director(s) => director = s.clone(),
                Field::Writer(s) => writer = s.clone(),
                Field::Genre(v) => genre = Film::parse_vector_field(v),
                Field::Stars(v) => stars = Film::parse_vector_field(v),
                Field::Description(s) => description = s.clone(),
            }
            j = j + 1;
        }
        assert(fs.take(j as int) =~= fs);
        let year = match parse_year(year_text.as_str()) {
            Ok(y) => y,
            Err(e) => {
                return Err(e);
            },
        };
        if title.as_str().is_empty() || year == 0 || director.as_str().is_empty()
            || writer.as_str().is_empty() || genre.len() == 0 || stars.len() == 0
            || description.as_str().is_empty() {
            return Err(FilmParserError::MissingFields);
        }
        Ok(Film::new(title, year, director, writer, genre, stars, description))
    }
}

/// Parses one record into a film: `EmptyInput` for a blank record,
/// `SyntaxError` where it does not follow the grammar, `InvalidYear` where
/// its year is not a valid number, `MissingFields` where a field is absent
/// or empty.
pub fn parse_film(record: &str) -> (r: Result<Film, FilmParserError>)
    ensures
        match r {
            Ok(f) => film_of(record@) == Ok::<_, FilmParserError>(f@),
            Err(e) => film_of(record@) == Err::<FilmView, _>(e),
        },
        r == Err::<Film, _>(FilmParserError::EmptyInput) <==> crate::text::is_blank(record@),
        r is Ok ==> r->Ok_0@.complete(),
{
    match FilmParser::parse_record(record) {
        Ok(p) => Film::parse_to_struct(&p),
        Err(e) => Err(e),
    }
}

} // verus!
