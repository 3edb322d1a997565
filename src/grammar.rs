//! The record grammar.
//!
//! A record is a run of fields cut at `;`, each written `<Label>: <Value>`.
//! The labels are, in the only order allowed, `Title`, `Year`, `Director`,
//! `Writer`, `Genre`, `Stars` and `Description`; a field may be left out,
//! but none may be repeated or moved. A final blank piece after the last `;`
//! is ignored. Values are trimmed. `Genre` and `Stars` hold a list: `[`,
//! items cut at commas that stand outside double quotes, `]`. Any text is
//! an item; a list with blank content has no items.
use crate::error::FilmParserError;
use crate::text::{
    blank_span, chars_of, find_cut, is_blank, next_cut, spans_view, split, split_span,
    text_of_span, trim, trim_span,
};
use vstd::prelude::*;

verus! {

/// The seven fields of a record, in the order the grammar asks for.
#[derive(Debug, Clone, Copy, PartialEq, Eq, Structural)]
pub enum FieldKind {
    Title,
    Year,
    Director,
    Writer,
    Genre,
    Stars,
    Description,
}

impl FieldKind {
    /// The place of the field in a record.
    pub open spec fn rank(self) -> int {
        match self {
            FieldKind::Title => 0,
            FieldKind::Year => 1,
            FieldKind::Director => 2,
            FieldKind::Writer => 3,
            FieldKind::Genre => 4,
            FieldKind::Stars => 5,
            FieldKind::Description => 6,
        }
    }

    /// The label that introduces the field.
    pub open spec fn label(self) -> Seq<char> {
        match self {
            FieldKind::Title => seq!['T', 'i', 't', 'l', 'e'],
            FieldKind::Year => seq!['Y', 'e', 'a', 'r'],
            FieldKind::Director => seq!['D', 'i', 'r', 'e', 'c', 't', 'o', 'r'],
            FieldKind::Writer => seq!['W', 'r', 'i', 't', 'e', 'r'],
            FieldKind::Genre => seq!['G', 'e', 'n', 'r', 'e'],
            FieldKind::Stars => seq!['S', 't', 'a', 'r', 's'],
            FieldKind::Description => seq![
                'D',
                'e',
                's',
                'c',
                'r',
                'i',
                'p',
                't',
                'i',
                'o',
                'n',
            ],
        }
    }

    /// Whether the field holds a bracketed list rather than a text.
    pub open spec fn is_list(self) -> bool {
        self == FieldKind::Genre || self == FieldKind::Stars
    }

    fn label_chars(self) -> (r: Vec<char>)
        ensures
            r@ == self.label(),
    {
        let r = match self {
            FieldKind::Title => vec!['T', 'i', 't', 'l', 'e'],
            FieldKind::Year => vec!['Y', 'e', 'a', 'r'],
            FieldKind::Director => vec!['D', 'i', 'r', 'e', 'c', 't', 'o', 'r'],
            FieldKind::Writer => vec!['W', 'r', 'i', 't', 'e', 'r'],
            FieldKind::Genre => vec!['G', 'e', 'n', 'r', 'e'],
            FieldKind::Stars => vec!['S', 't', 'a', 'r', 's'],
            FieldKind::Description => vec![
                'D',
                'e',
                's',
                'c',
                'r',
                'i',
                'p',
                't',
                'i',
                'o',
                'n',
            ],
        };
        assert(r@ =~= self.label());
        r
    }

    fn rank_of(self) -> (r: u8)
        ensures
            r as int == self.rank(),
    {
        match self {
            FieldKind::Title => 0,
            FieldKind::Year => 1,
            FieldKind::Director => 2,
            FieldKind::Writer => 3,
            FieldKind::Genre => 4,
            FieldKind::Stars => 5,
            FieldKind::Description => 6,
        }
    }
}

/// One field of a parsed record: the trimmed text of a text field, or the
/// item spans of a list field as the grammar found them (quotes kept).
#[derive(Debug, Clone, PartialEq, Eq)]
pub enum Field {
    Title(String),
    Year(String),
    Director(String),
    Writer(String),
    Genre(Vec<String>),
    Stars(Vec<String>),
    Description(String),
}

/// What a field holds: its kind, and its text or its items.
pub struct FieldView {
    pub kind: FieldKind,
    pub text: Seq<char>,
    pub items: Seq<Seq<char>>,
}

pub open spec fn strings_view(v: Seq<String>) -> Seq<Seq<char>> {
    v.map_values(|s: String| s@)
}

pub open spec fn text_field(kind: FieldKind, text: Seq<char>) -> FieldView {
    FieldView { kind, text, items: Seq::empty() }
}

pub open spec fn list_field(kind: FieldKind, items: Seq<Seq<char>>) -> FieldView {
    FieldView { kind, text: Seq::empty(), items }
}

impl View for Field {
    type V = FieldView;

    open spec fn view(&self) -> FieldView {
        match self {
            Field::Title(s) => text_field(FieldKind::Title, s@),
            Field::Year(s) => text_field(FieldKind::Year, s@),
            Field::Director(s) => text_field(FieldKind::Director, s@),
            Field::Writer(s) => text_field(FieldKind::Writer, s@),
            Field::Genre(v) => list_field(FieldKind::Genre, strings_view(v@)),
            Field::Stars(v) => list_field(FieldKind::Stars, strings_view(v@)),
            Field::Description(s) => text_field(FieldKind::Description, s@),
        }
    }
}

/// The fields of one record, in the order they were written.
#[derive(Debug, Clone, PartialEq, Eq)]
pub struct ParsedRecord {
    pub fields: Vec<Field>,
}

impl View for ParsedRecord {
    type V = Seq<FieldView>;

    open spec fn view(&self) -> Seq<FieldView> {
        self.fields@.map_values(|f: Field| f@)
    }
}

/// The kind whose label is `key`, if any.
pub open spec fn kind_of_label(key: Seq<char>) -> Option<FieldKind> {
    if key == FieldKind::Title.label() {
        Some(FieldKind::Title)
    } else if key == FieldKind::Year.label() {
        Some(FieldKind::Year)
    } else if key == FieldKind::Director.label() {
        Some(FieldKind::Director)
    } else if key == FieldKind::Writer.label() {
        Some(FieldKind::Writer)
    } else if key == FieldKind::Genre.label() {
        Some(FieldKind::Genre)
    } else if key == FieldKind::Stars.label() {
        Some(FieldKind::Stars)
    } else if key == FieldKind::Description.label() {
        Some(FieldKind::Description)
    } else {
        None
    }
}

/// Whether `v` is enclosed in square brackets.
pub open spec fn bracketed(v: Seq<char>) -> bool {
    v.len() >= 2 && v[0] == '[' && v.last() == ']'
}

/// The item spans of a trimmed list value `[a, "b, c", d]`: its content cut
/// at the commas that stand outside double quotes, each piece trimmed. A
/// blank content is a list without items.
pub open spec fn list_items(v: Seq<char>) -> Option<Seq<Seq<char>>> {
    if bracketed(v) {
        let inner = v.subrange(1, v.len() - 1);
        if is_blank(inner) {
            Some(Seq::empty())
        } else {
            Some(split(inner, ',', true).map_values(|p: Seq<char>| trim(p)))
        }
    } else {
        None
    }
}

/// The field that the value `v` gives to a field of kind `k`.
pub open spec fn field_value(k: FieldKind, v: Seq<char>) -> Option<FieldView> {
    if k.is_list() {
        match list_items(trim(v)) {
            Some(items) => Some(list_field(k, items)),
            None => None,
        }
    } else {
        Some(text_field(k, trim(v)))
    }
}

/// The label of a field: what comes before its first `:`, trimmed.
pub open spec fn segment_label(seg: Seq<char>) -> Option<FieldKind> {
    let c = next_cut(seg, ':', false, 0);
    if c < seg.len() {
        kind_of_label(trim(seg.take(c)))
    } else {
        None
    }
}

/// The value of a field: what comes after its first `:`.
pub open spec fn segment_value(seg: Seq<char>) -> Seq<char> {
    seg.skip(next_cut(seg, ':', false, 0) + 1)
}

/// The field that one piece of a record stands for, if it is one.
#[verifier::opaque]
pub open spec fn parse_segment(seg: Seq<char>) -> Option<FieldView> {
    match segment_label(seg) {
        Some(k) => field_value(k, segment_value(seg)),
        None => None,
    }
}

/// The pieces of a record between its `;`, but a blank last one.
pub open spec fn segments(r: Seq<char>) -> Seq<Seq<char>> {
    let parts = split(r, ';', false);
    if parts.len() > 1 && is_blank(parts.last()) {
        parts.drop_last()
    } else {
        parts
    }
}

/// Whether each field comes strictly after the one before it.
pub open spec fn in_order(fs: Seq<FieldView>) -> bool {
    forall|j: int| 0 < j < fs.len() ==> fs[j - 1].kind.rank() < (#[trigger] fs[j]).kind.rank()
}

/// The fields that the pieces `segs` stand for, if each is a field and each
/// comes after the one before it.
#[verifier::opaque]
pub open spec fn fields_of_segments(segs: Seq<Seq<char>>) -> Option<Seq<FieldView>> {
    if forall|j: int| 0 <= j < segs.len() ==> (#[trigger] parse_segment(segs[j])) is Some {
        let fs = segs.map_values(|s: Seq<char>| parse_segment(s)->0);
        if in_order(fs) {
            Some(fs)
        } else {
            None
        }
    } else {
        None
    }
}

/// The fields of a record, if it follows the grammar.
pub open spec fn record_fields(r: Seq<char>) -> Option<Seq<FieldView>> {
    fields_of_segments(segments(r))
}

/// The outcome of the grammar on a record: `EmptyInput` for a blank record,
/// `SyntaxError` for one that does not follow the grammar.
pub open spec fn parse_record_spec(r: Seq<char>) -> Result<Seq<FieldView>, FilmParserError> {
    if is_blank(r) {
        Err(FilmParserError::EmptyInput)
    } else {
        match record_fields(r) {
            Some(fs) => Ok(fs),
            None => Err(FilmParserError::SyntaxError),
        }
    }
}

/// Whether the span `lo..hi` of `cs` spells `word`.
fn spells(cs: &Vec<char>, lo: usize, hi: usize, word: &Vec<char>) -> (b: bool)
    requires
        lo <= hi <= cs.len(),
    ensures
        b == (cs@.subrange(lo as int, hi as int) == word@),
{
    if hi - lo != word.len() {
        assert(cs@.subrange(lo as int, hi as int).len() != word@.len());
        return false;
    }
    let mut i: usize = 0;
    while i < word.len()
        invariant
            hi - lo == word.len(),
            lo <= hi <= cs.len(),
            0 <= i <= word.len(),
            forall|j: int| 0 <= j < i ==> cs@[lo + j] == word@[j],
        decreases word.len() - i,
    {
        if cs[lo + i] != word[i] {
            assert(cs@.subrange(lo as int, hi as int)[i as int] != word@[i as int]);
            return false;
        }
        i = i + 1;
    }
    assert(cs@.subrange(lo as int, hi as int) =~= word@);
    true
}

/// The kind whose label the span `lo..hi` of `cs` spells, if any.
fn label_kind(cs: &Vec<char>, lo: usize, hi: usize) -> (r: Option<FieldKind>)
    requires
        lo <= hi <= cs.len(),
    ensures
        r == kind_of_label(cs@.subrange(lo as int, hi as int)),
{
    if spells(cs, lo, hi, &FieldKind::Title.label_chars()) {
        Some(FieldKind::Title)
    } else if spells(cs, lo, hi, &FieldKind::Year.label_chars()) {
        Some(FieldKind::Year)
    } else if spells(cs, lo, hi, &FieldKind::Director.label_chars()) {
        Some(FieldKind::Director)
    } else if spells(cs, lo, hi, &FieldKind::Writer.label_chars()) {
        Some(FieldKind::Writer)
    } else if spells(cs, lo, hi, &FieldKind::Genre.label_chars()) {
        Some(FieldKind::Genre)
    } else if spells(cs, lo, hi, &FieldKind::Stars.label_chars()) {
        Some(FieldKind::Stars)
    } else if spells(cs, lo, hi, &FieldKind::Description.label_chars()) {
        Some(FieldKind::Description)
    } else {
        None
    }
}

/// The item spans of the trimmed list value `lo..hi` of `s`, if it is one.
fn parse_list(s: &str, cs: &Vec<char>, lo: usize, hi: usize) -> (r: Option<Vec<String>>)
    requires
        cs@ == s@,
        lo <= hi <= cs.len(),
    ensures
        match r {
            Some(v) => list_items(cs@.subrange(lo as int, hi as int)) == Some(strings_view(v@)),
            None => list_items(cs@.subrange(lo as int, hi as int)) is None,
        },
{
    let ghost v = cs@.subrange(lo as int, hi as int);
    if !(hi - lo >= 2 && cs[lo] == '[' && cs[hi - 1] == ']') {
        return None;
    }
    assert(v.subrange(1, v.len() - 1) =~= cs@.subrange(lo + 1, hi - 1));
    if blank_span(cs, lo + 1, hi - 1) {
        return Some(Vec::new());
    }
    let pieces = split_span(cs, lo + 1, hi - 1, ',', true);
    let ghost items = split(v.subrange(1, v.len() - 1), ',', true).map_values(
        |p: Seq<char>| trim(p),
    );
    let mut out: Vec<String> = Vec::new();
    let mut j: usize = 0;
    while j < pieces.len()
        invariant
            cs@ == s@,
            lo + 1 <= hi - 1,
            hi <= cs.len(),
            v == cs@.subrange(lo as int, hi as int),
            v.len() >= 2,
            0 <= j <= pieces.len(),
            items.len() == pieces.len(),
            spans_view(cs@, pieces@) == split(v.subrange(1, v.len() - 1), ',', true),
            forall|k: int| 0 <= k < pieces.len() ==> lo + 1 <= (#[trigger] pieces@[k]).0 <= pieces@[k].1 <= hi - 1,
            items == split(v.subrange(1, v.len() - 1), ',', true).map_values(
                |p: Seq<char>| trim(p),
            ),
            strings_view(out@) == items.take(j as int),
        decreases pieces.len() - j,
    {
        let (a, b) = pieces[j];
        assert(spans_view(cs@, pieces@)[j as int] == cs@.subrange(a as int, b as int));
        let (p, q) = trim_span(cs, a, b);
        assert(items[j as int] == cs@.subrange(p as int, q as int));
        let item = text_of_span(s, p, q);
        let ghost before = out@;
        out.push(item);
        assert(strings_view(out@) =~= strings_view(before).push(item@));
        assert(items.take(j + 1) =~= items.take(j as int).push(items[j as int]));
        j = j + 1;
    }
    assert(items.take(j as int) =~= items);
    Some(out)
}

/// The field that the span `lo..hi` of `s` stands for, if it is one.
fn parse_segment_span(s: &str, cs: &Vec<char>, lo: usize, hi: usize) -> (r: Option<Field>)
    requires
        cs@ == s@,
        lo <= hi <= cs.len(),
    ensures
        match r {
            Some(f) => parse_segment(cs@.subrange(lo as int, hi as int)) == Some(f@),
            None => parse_segment(cs@.subrange(lo as int, hi as int)) is None,
        },
{
    reveal(parse_segment);
    let ghost seg = cs@.subrange(lo as int, hi as int);
    let c = find_cut(cs, lo, hi, ':', false);
    if c == hi {
        return None;
    }
    assert(seg.take(c - lo) =~= cs@.subrange(lo as int, c as int));
    assert(seg.skip(c - lo + 1) =~= cs@.subrange(c + 1, hi as int));
    let (klo, khi) = trim_span(cs, lo, c);
    let kind = match label_kind(cs, klo, khi) {
        Some(k) => k,
        None => {
            return None;
        },
    };
    let (vlo, vhi) = trim_span(cs, c + 1, hi);
    match kind {
        FieldKind::Genre => match parse_list(s, cs, vlo, vhi) {
            Some(v) => Some(Field::Genre(v)),
            None => None,
        },
        FieldKind::Stars => match parse_list(s, cs, vlo, vhi) {
            Some(v) => Some(Field::Stars(v)),
            None => None,
        },
        FieldKind::Title => Some(Field::Title(text_of_span(s, vlo, vhi))),
        FieldKind::Year => Some(Field::Year(text_of_span(s, vlo, vhi))),
        FieldKind::Director => Some(Field::Director(text_of_span(s, vlo, vhi))),
        FieldKind::Writer => Some(Field::Writer(text_of_span(s, vlo, vhi))),
        FieldKind::Description => Some(Field::Description(text_of_span(s, vlo, vhi))),
    }
}

/// The kind of a field.
pub fn kind_of(f: &Field) -> (k: FieldKind)
    ensures
        k == f@.kind,
{
    match f {
        Field::Title(_) => FieldKind::Title,
        Field::Year(_) => FieldKind::Year,
        Field::Director(_) => FieldKind::Director,
        Field::Writer(_) => FieldKind::Writer,
        Field::Genre(_) => FieldKind::Genre,
        Field::Stars(_) => FieldKind::Stars,
        Field::Description(_) => FieldKind::Description,
    }
}

/// The record grammar.
pub struct FilmParser;

impl FilmParser {
    /// Parses one record into its fields: `EmptyInput` for a blank record,
    /// `SyntaxError` where it does not follow the grammar.
    pub fn parse_record(record: &str) -> (r: Result<ParsedRecord, FilmParserError>)
        ensures
            match r {
                Ok(p) => parse_record_spec(record@) == Ok::<_, FilmParserError>(p@),
                Err(e) => parse_record_spec(record@) == Err::<Seq<FieldView>, _>(e),
            },
    {
        let cs = chars_of(record);
        let n = cs.len();
        assert(cs@.subrange(0, n as int) =~= record@);
        if blank_span(&cs, 0, n) {
            return Err(FilmParserError::EmptyInput);
        }
        let mut segs = split_span(&cs, 0, n, ';', false);
        let ghost parts = split(record@, ';', false);
        if segs.len() > 1 {
            let (a, b) = segs[segs.len() - 1];
            assert(spans_view(cs@, segs@)[segs.len() - 1] == cs@.subrange(a as int, b as int));
            if blank_span(&cs, a, b) {
                segs.pop();
                assert(spans_view(cs@, segs@) =~= parts.drop_last());
            }
        }
        assert(spans_view(cs@, segs@) == segments(record@));
        match parse_segments(record, &cs, &segs) {
            Some(fields) => Ok(ParsedRecord { fields }),
            None => Err(FilmParserError::SyntaxError),
        }
    }
}

/// The fields that the spans `segs` of `s` stand for, if each is a field and
/// each comes after the one before it.
fn parse_segments(s: &str, cs: &Vec<char>, segs: &Vec<(usize, usize)>) -> (r: Option<Vec<Field>>)
    requires
        cs@ == s@,
        forall|k: int| 0 <= k < segs.len() ==> 0 <= (#[trigger] segs@[k]).0 <= segs@[k].1 <= cs.len(),
    ensures
        match r {
            Some(v) => fields_of_segments(spans_view(cs@, segs@)) == Some(
                v@.map_values(|f: Field| f@),
            ),
            None => fields_of_segments(spans_view(cs@, segs@)) is None,
        },
{
    let ghost segv = spans_view(cs@, segs@);
    let ghost fs = segv.map_values(|x: Seq<char>| parse_segment(x)->0);
    let mut fields: Vec<Field> = Vec::new();
    let mut last_rank: u8 = 0;
    let mut j: usize = 0;
    while j < segs.len()
        invariant
            cs@ == s@,
            segv == spans_view(cs@, segs@),
            fs == segv.map_values(|x: Seq<char>| parse_segment(x)->0),
            forall|k: int| 0 <= k < segs.len() ==> 0 <= (#[trigger] segs@[k]).0 <= segs@[k].1 <= cs.len(),
            0 <= j <= segs.len(),
            fields@.len() == j,
            forall|k: int| 0 <= k < j ==> parse_segment(#[trigger] segv[k]) == Some(fields@[k]@),
            forall|k: int| 0 < k < j ==> fields@[k - 1]@.kind.rank() < (#[trigger] fields@[k])@.kind.rank(),
            j > 0 ==> last_rank as int == fields@[j - 1]@.kind.rank(),
        decreases segs.len() - j,
    {
        let (a, b) = segs[j];
        assert(segv[j as int] == cs@.subrange(a as int, b as int));
        let f = match parse_segment_span(s, cs, a, b) {
            Some(f) => f,
            None => {
                proof {
                    reveal(fields_of_segments);
                    assert(parse_segment(segv[j as int]) is None);
                }
                return None;
            },
        };
        let rank = kind_of(&f).rank_of();
        if j > 0 && rank <= last_rank {
            proof {
                reveal(fields_of_segments);
                assert(fs[j as int - 1] == fields@[j - 1]@);
                assert(fs[j as int] == f@);
                assert(!in_order(fs));
            }
            return None;
        }
        fields.push(f);
        last_rank = rank;
        j = j + 1;
    }
    proof {
        reveal(fields_of_segments);
        assert(fields@.map_values(|f: Field| f@) =~= fs);
    }
    Some(fields)
}

} // verus!
