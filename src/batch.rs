//! Parsing many records at once, and cutting a document into records.
use crate::error::FilmParserError;
use crate::film::{film_of, parse_film, Film, FilmView};
use crate::text::{blank_span, chars_of, is_blank, spans_view, split, split_span, text_of_span};
use vstd::prelude::*;

verus! {

/// What a batch does when a record fails.
#[derive(Debug, Clone, Copy, PartialEq, Eq, Structural)]
pub enum BatchPolicy {
    /// The first record that fails ends the batch.
    Strict,
    /// Every record is parsed; each failure is reported and skipped.
    Lenient,
}

impl Default for BatchPolicy {
    /// Batches go on past failures unless asked otherwise.
    fn default() -> (r: BatchPolicy)
        ensures
            r == BatchPolicy::Lenient,
    {
        BatchPolicy::Lenient
    }
}

/// A record that failed, with the reason.
#[derive(Debug, Clone, PartialEq, Eq)]
pub struct Diagnostic {
    /// The text of the record, as it was given.
    pub record: String,
    /// Why it failed.
    pub error: FilmParserError,
}

impl View for Diagnostic {
    type V = (Seq<char>, FilmParserError);

    open spec fn view(&self) -> (Seq<char>, FilmParserError) {
        (self.record@, self.error)
    }
}

/// The films of a batch, and the records that failed, each in input order.
#[derive(Debug, Clone, PartialEq, Eq)]
pub struct BatchOutcome {
    pub films: Vec<Film>,
    pub diagnostics: Vec<Diagnostic>,
}

pub open spec fn films_view(v: Seq<Film>) -> Seq<FilmView> {
    v.map_values(|f: Film| f@)
}

pub open spec fn diagnostics_view(v: Seq<Diagnostic>) -> Seq<(Seq<char>, FilmParserError)> {
    v.map_values(|d: Diagnostic| d@)
}

pub open spec fn records_view(v: Seq<String>) -> Seq<Seq<char>> {
    v.map_values(|s: String| s@)
}

/// The film of each record that parses, in order.
pub open spec fn accepted(rs: Seq<Seq<char>>) -> Seq<FilmView> {
    rs.filter_map(
        |r: Seq<char>|
            match film_of(r) {
                Ok(f) => Some(f),
                Err(_) => None,
            },
    )
}

/// Each record that fails, with its reason, in order.
pub open spec fn rejected(rs: Seq<Seq<char>>) -> Seq<(Seq<char>, FilmParserError)> {
    rs.filter_map(
        |r: Seq<char>|
            match film_of(r) {
                Ok(_) => None,
                Err(e) => Some((r, e)),
            },
    )
}

/// The place of the first record at or after `k` that fails, or `rs.len()`.
pub open spec fn first_failure(rs: Seq<Seq<char>>, k: int) -> int
    decreases rs.len() - k,
{
    if k < 0 || k >= rs.len() {
        rs.len() as int
    } else if film_of(rs[k]) is Err {
        k
    } else {
        first_failure(rs, k + 1)
    }
}

/// The records that a batch under `policy` looks at: all of them, or under
/// the strict policy those up to and including the first that fails.
pub open spec fn examined(rs: Seq<Seq<char>>, policy: BatchPolicy) -> Seq<Seq<char>> {
    let k = first_failure(rs, 0);
    if policy == BatchPolicy::Strict && k < rs.len() {
        rs.take(k + 1)
    } else {
        rs
    }
}

/// Parses each record in order. Under the lenient policy every record is
/// parsed, each film is kept and each failure becomes a diagnostic; under
/// the strict policy the batch ends at the first failure, which is then
/// its only diagnostic.
pub fn parse_batch(records: &Vec<String>, policy: BatchPolicy) -> (r: BatchOutcome)
    ensures
        films_view(r.films@) == accepted(examined(records_view(records@), policy)),
        diagnostics_view(r.diagnostics@) == rejected(examined(records_view(records@), policy)),
        r.films.len() + r.diagnostics.len() == examined(records_view(records@), policy).len(),
        policy == BatchPolicy::Strict ==> r.diagnostics.len() <= 1,
{
    let ghost rs = records_view(records@);
    let mut films: Vec<Film> = Vec::new();
    let mut diagnostics: Vec<Diagnostic> = Vec::new();
    let mut i: usize = 0;
    while i < records.len()
        invariant
            rs == records_view(records@),
            0 <= i <= records.len(),
            films_view(films@) == accepted(rs.take(i as int)),
            diagnostics_view(diagnostics@) == rejected(rs.take(i as int)),
            films.len() + diagnostics.len() == i,
            policy == BatchPolicy::Strict ==> diagnostics.len() == 0,
            policy == BatchPolicy::Strict ==> first_failure(rs, 0) == first_failure(rs, i as int),
        decreases records.len() - i,
    {
        let ghost next = rs.take(i + 1);
        assert(next.drop_last() =~= rs.take(i as int));
        assert(next.last() == records@[i as int]@);
        let ghost fv = films@;
        let ghost dv = diagnostics@;
        match parse_film(records[i].as_str()) {
            Ok(f) => {
                films.push(f);
                assert(films_view(films@) =~= films_view(fv).push(f@));
                assert(accepted(next) == accepted(rs.take(i as int)).push(f@));
                assert(rejected(next) == rejected(rs.take(i as int)));
            },
            Err(e) => {
                let d = Diagnostic { record: records[i].clone(), error: e };
                diagnostics.push(d);
                assert(diagnostics_view(diagnostics@) =~= diagnostics_view(dv).push(d@));
                assert(accepted(next) == accepted(rs.take(i as int)));
                assert(rejected(next) == rejected(rs.take(i as int)).push(d@));
                if policy == BatchPolicy::Strict {
                    assert(first_failure(rs, i as int) == i);
                    assert(examined(rs, policy) == next);
                    return BatchOutcome { films, diagnostics };
                }
            },
        }
        i = i + 1;
    }
    assert(rs.take(i as int) =~= rs);
    assert(examined(rs, policy) == rs);
    BatchOutcome { films, diagnostics }
}

/// Parses every record under the default, lenient policy: the film of each
/// record that parses and a diagnostic for each one that fails, both in
/// input order; no failure ends the batch.
pub fn parse_films(films: Vec<String>) -> (r: (Vec<Film>, Vec<Diagnostic>))
    ensures
        films_view(r.0@) == accepted(records_view(films@)),
        diagnostics_view(r.1@) == rejected(records_view(films@)),
        r.0.len() + r.1.len() == films.len(),
{
    let outcome = parse_batch(&films, BatchPolicy::Lenient);
    (outcome.films, outcome.diagnostics)
}

/// Parses every record under the strict policy: all the films where every
/// record parses, else the reason the first failing record fails.
pub fn parse_films_strict(films: Vec<String>) -> (r: Result<Vec<Film>, FilmParserError>)
    ensures
        match r {
            Ok(v) => first_failure(records_view(films@), 0) == films.len() && films_view(v@)
                == accepted(records_view(films@)),
            Err(e) => {
                let k = first_failure(records_view(films@), 0);
                &&& k < films.len()
                &&& film_of(films@[k]@) == Err::<FilmView, _>(e)
            },
        },
{
    let ghost rs = records_view(films@);
    let outcome = parse_batch(&films, BatchPolicy::Strict);
    let ghost k = first_failure(rs, 0);
    let mut diagnostics = outcome.diagnostics;
    match diagnostics.pop() {
        Some(d) => {
            proof {
                lemma_first_failure_bounds(rs, 0);
                if k >= rs.len() {
                    assert(examined(rs, BatchPolicy::Strict) == rs);
                    lemma_all_accepted(rs);
                }
                let ex = rs.take(k + 1);
                assert(ex.drop_last() =~= rs.take(k));
                lemma_prefix_accepted(rs, k);
                assert(rs[k] == films@[k]@);
                let e = film_of(rs[k])->Err_0;
                assert(rejected(ex) == rejected(ex.drop_last()).push((rs[k], e)));
                assert(rejected(ex) =~= seq![(rs[k], e)]);
                assert(d@ == diagnostics_view(outcome.diagnostics@)[0]);
            }
            Err(d.error)
        },
        None => {
            proof {
                lemma_first_failure_bounds(rs, 0);
                if k < rs.len() {
                    let ex = rs.take(k + 1);
                    assert(ex.drop_last() =~= rs.take(k));
                    assert(rejected(ex).len() == rejected(ex.drop_last()).len() + 1);
                }
            }
            Ok(outcome.films)
        },
    }
}

proof fn lemma_first_failure_bounds(rs: Seq<Seq<char>>, k: int)
    requires
        0 <= k <= rs.len(),
    ensures
        k <= first_failure(rs, k) <= rs.len(),
        first_failure(rs, k) < rs.len() ==> film_of(rs[first_failure(rs, k)]) is Err,
        forall|j: int| k <= j < first_failure(rs, k) ==> film_of(#[trigger] rs[j]) is Ok,
    decreases rs.len() - k,
{
    if k < rs.len() && film_of(rs[k]) is Ok {
        lemma_first_failure_bounds(rs, k + 1);
    }
}

/// Where no record fails, none is rejected.
proof fn lemma_all_accepted(rs: Seq<Seq<char>>)
    requires
        forall|j: int| 0 <= j < rs.len() ==> film_of(#[trigger] rs[j]) is Ok,
    ensures
        rejected(rs).len() == 0,
    decreases rs.len(),
{
    if rs.len() > 0 {
        lemma_all_accepted(rs.drop_last());
        assert(film_of(rs[rs.len() - 1]) is Ok);
    }
}

/// Records that all parse give no diagnostic.
proof fn lemma_prefix_accepted(rs: Seq<Seq<char>>, k: int)
    requires
        0 <= k <= rs.len(),
        forall|j: int| 0 <= j < k ==> film_of(#[trigger] rs[j]) is Ok,
    ensures
        rejected(rs.take(k)).len() == 0,
{
    assert forall|j: int| 0 <= j < rs.take(k).len() implies film_of(#[trigger] rs.take(k)[j]) is Ok by {
        assert(rs.take(k)[j] == rs[j]);
    }
    lemma_all_accepted(rs.take(k));
}

/// The lines of a document that are not blank: one record each.
pub open spec fn document_records(doc: Seq<char>) -> Seq<Seq<char>> {
    split(doc, '\n', false).filter_map(
        |l: Seq<char>|
            if is_blank(l) {
                None
            } else {
                Some(l)
            },
    )
}

/// Cuts a document into its records: its lines, without the blank ones.
pub fn split_document(document: &str) -> (r: Vec<String>)
    ensures
        records_view(r@) == document_records(document@),
{
    let cs = chars_of(document);
    let n = cs.len();
    assert(cs@.subrange(0, n as int) =~= document@);
    let lines = split_span(&cs, 0, n, '\n', false);
    let ghost ls = split(document@, '\n', false);
    let mut out: Vec<String> = Vec::new();
    let mut j: usize = 0;
    while j < lines.len()
        invariant
            cs@ == document@,
            n == cs.len(),
            ls == split(document@, '\n', false),
            spans_view(cs@, lines@) == ls,
            forall|k: int| 0 <= k < lines.len() ==> 0 <= (#[trigger] lines@[k]).0 <= lines@[k].1 <= n,
            0 <= j <= lines.len(),
            records_view(out@) == document_records_upto(ls, j as int),
        decreases lines.len() - j,
    {
        let (a, b) = lines[j];
        assert(ls[j as int] == cs@.subrange(a as int, b as int));
        let ghost next = ls.take(j + 1);
        assert(next.drop_last() =~= ls.take(j as int));
        if !blank_span(&cs, a, b) {
            let line = text_of_span(document, a, b);
            let ghost before = out@;
            out.push(line);
            assert(records_view(out@) =~= records_view(before).push(line@));
        }
        j = j + 1;
    }
    assert(ls.take(j as int) =~= ls);
    out
}

spec fn document_records_upto(ls: Seq<Seq<char>>, j: int) -> Seq<Seq<char>> {
    ls.take(j).filter_map(
        |l: Seq<char>|
            if is_blank(l) {
                None
            } else {
                Some(l)
            },
    )
}

} // verus!
