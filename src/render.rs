//! Writing a film back as text, one labelled line per field.
use crate::film::{Film, FilmView};
use crate::text::{join, lemma_join_push};
use vstd::prelude::*;

verus! {

/// The decimal digits, in order of value.
pub open spec fn digit_chars() -> Seq<char> {
    seq!['0', '1', '2', '3', '4', '5', '6', '7', '8', '9']
}

/// The decimal writing of `n`, without leading zeros.
pub open spec fn decimal_text(n: nat) -> Seq<char>
    decreases n,
{
    if n < 10 {
        seq![digit_chars()[n as int]]
    } else {
        decimal_text(n / 10) + seq![digit_chars()[(n % 10) as int]]
    }
}

/// The items of a list, with `, ` between two neighbours.
pub open spec fn joined(items: Seq<Seq<char>>) -> Seq<char> {
    join(items, seq![',', ' '])
}

/// A film written as seven labelled lines.
pub open spec fn film_text(f: FilmView) -> Seq<char> {
    "Title: "@ + f.title + "\nYear: "@ + decimal_text(f.year as nat) + "\nDirector: "@ + f.director
        + "\nWriter: "@ + f.writer + "\nGenre: "@ + joined(f.genre) + "\nStars: "@ + joined(
        f.stars,
    ) + "\nDescription: "@ + f.description + "\n"@
}

fn digit_text(d: u32) -> (r: String)
    requires
        d < 10,
    ensures
        r@ == seq![digit_chars()[d as int]],
{
    let digits = "0123456789";
    proof {
        reveal_strlit("0123456789");
        assert(digits@ =~= digit_chars());
    }
    let r = digits.substring_char(d as usize, d as usize + 1).to_owned();
    assert(r@ =~= seq![digit_chars()[d as int]]);
    r
}

/// The decimal writing of `n`.
pub fn decimal_string(n: u32) -> (r: String)
    ensures
        r@ == decimal_text(n as nat),
    decreases n,
{
    if n < 10 {
        digit_text(n)
    } else {
        let mut r = decimal_string(n / 10);
        let last = digit_text(n % 10);
        r.append(last.as_str());
        r
    }
}

fn append_joined(out: &mut String, items: &Vec<String>)
    ensures
        final(out)@ == old(out)@ + joined(items@.map_values(|s: String| s@)),
{
    let ghost start = out@;
    let ghost view = items@.map_values(|s: String| s@);
    let mut j: usize = 0;
    while j < items.len()
        invariant
            view == items@.map_values(|s: String| s@),
            0 <= j <= items.len(),
            out@ == start + joined(view.take(j as int)),
        decreases items.len() - j,
    {
        assert(view.take(j + 1) =~= view.take(j as int).push(items@[j as int]@));
        if j > 0 {
            proof {
                reveal_strlit(", ");
                assert(", "@ =~= seq![',', ' ']);
                lemma_join_push(view.take(j as int), items@[j as int]@, seq![',', ' ']);
            }
            out.append(", ");
            out.append(items[j].as_str());
            assert(out@ =~= start + joined(view.take(j + 1)));
        } else {
            out.append(items[j].as_str());
            assert(out@ =~= start + joined(view.take(j + 1)));
        }
        j = j + 1;
    }
    assert(view.take(j as int) =~= view);
}

impl Film {
    /// The film as seven labelled lines, `Title: ...` to `Description: ...`,
    /// each ended by a newline; list items are joined by `, `.
    pub fn render(&self) -> (r: String)
        ensures
            r@ == film_text(self@),
    {
        let mut out = String::new();
        out.append("Title: ");
        out.append(self.title.as_str());
        out.append("\nYear: ");
        out.append(decimal_string(self.year).as_str());
        out.append("\nDirector: ");
        out.append(self.director.as_str());
        out.append("\nWriter: ");
        out.append(self.writer.as_str());
        out.append("\nGenre: ");
        append_joined(&mut out, &self.genre);
        out.append("\nStars: ");
        append_joined(&mut out, &self.stars);
        out.append("\nDescription: ");
        out.append(self.description.as_str());
        out.append("\n");
        assert(out@ =~= film_text(self@));
        out
    }
}

} // verus!
