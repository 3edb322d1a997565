use film_parser::{
    decimal_string, parse_batch, parse_film, parse_films, parse_films_strict, parse_year, split_document, split_item,
    BatchPolicy, Field, Film, FilmParser, FilmParserError,
};

const FUNNY: &str = "Title: I Used To Be Funny; Year: 2023; Director: Ally Pankiw; Writer: Ally Pankiw; Genre: [Comedy, Drama]; Stars: [Rachel Sennott, Olga Petsa, Jason Jones]; Description: A stand-up comedian struggling with PTSD.";

fn record(year: &str, genre: &str, stars: &str) -> String {
    format!(
        "Title: T; Year: {}; Director: D; Writer: W; Genre: {}; Stars: {}; Description: X",
        year, genre, stars
    )
}

fn strings(items: &[&str]) -> Vec<String> {
    items.iter().map(|s| s.to_string()).collect()
}

#[test]
fn full_record_gives_every_field() {
    let film = parse_film(FUNNY).unwrap();
    assert_eq!(film.title, "I Used To Be Funny");
    assert_eq!(film.year, 2023);
    assert_eq!(film.director, "Ally Pankiw");
    assert_eq!(film.writer, "Ally Pankiw");
    assert_eq!(film.genre, strings(&["Comedy", "Drama"]));
    assert_eq!(film.stars, strings(&["Rachel Sennott", "Olga Petsa", "Jason Jones"]));
    assert_eq!(film.description, "A stand-up comedian struggling with PTSD.");
}

#[test]
fn values_are_trimmed_exactly() {
    let film = parse_film(
        "Title:   Spaced  Out ;Year:1999;Director:\tA B\t; Writer: C ; Genre: [ x ,y ]; Stars: [ z ]; Description:  d e  ",
    )
    .unwrap();
    assert_eq!(film.title, "Spaced  Out");
    assert_eq!(film.year, 1999);
    assert_eq!(film.director, "A B");
    assert_eq!(film.writer, "C");
    assert_eq!(film.genre, strings(&["x", "y"]));
    assert_eq!(film.stars, strings(&["z"]));
    assert_eq!(film.description, "d e");
}

#[test]
fn prefix_of_fields_is_missing_fields() {
    assert_eq!(
        parse_film("Title: Some_Title; Year: 2023;"),
        Err(FilmParserError::MissingFields)
    );
}

#[test]
fn each_left_out_field_is_missing_fields() {
    let parts = [
        "Title: T",
        "Year: 2001",
        "Director: D",
        "Writer: W",
        "Genre: [G]",
        "Stars: [S]",
        "Description: X",
    ];
    for skip in 0..parts.len() {
        let kept: Vec<&str> = parts
            .iter()
            .enumerate()
            .filter(|(i, _)| *i != skip)
            .map(|(_, p)| *p)
            .collect();
        let text = kept.join("; ");
        assert_eq!(parse_film(&text), Err(FilmParserError::MissingFields), "{}", text);
    }
}

#[test]
fn year_zero_is_missing_fields() {
    assert_eq!(parse_film(&record("0", "[G]", "[S]")), Err(FilmParserError::MissingFields));
}

#[test]
fn empty_input_is_its_own_error() {
    assert_eq!(parse_film(""), Err(FilmParserError::EmptyInput));
    assert_eq!(parse_film("  \t\n"), Err(FilmParserError::EmptyInput));
    assert_ne!(parse_film(""), Err(FilmParserError::MissingFields));
}

#[test]
fn year_in_words_is_invalid_year() {
    assert_eq!(
        parse_film(&record("twenty twenty-three", "[G]", "[S]")),
        Err(FilmParserError::InvalidYear)
    );
}

#[test]
fn year_beyond_u32_is_invalid_year() {
    assert_eq!(
        parse_film(&record("4294967296", "[G]", "[S]")),
        Err(FilmParserError::InvalidYear)
    );
    assert_eq!(parse_film(&record("4294967295", "[G]", "[S]")).unwrap().year, 4294967295);
}

#[test]
fn parse_year_values() {
    assert_eq!(parse_year(""), Ok(0));
    assert_eq!(parse_year("2023"), Ok(2023));
    assert_eq!(parse_year("007"), Ok(7));
    assert_eq!(parse_year("20x3"), Err(FilmParserError::InvalidYear));
    assert_eq!(parse_year("+2023"), Err(FilmParserError::InvalidYear));
    assert_eq!(parse_year("99999999999"), Err(FilmParserError::InvalidYear));
}

#[test]
fn unbracketed_genre_is_syntax_error() {
    assert_eq!(
        parse_film(&record("2024", "Drama, Mystery", "[S]")),
        Err(FilmParserError::SyntaxError)
    );
}

#[test]
fn unbracketed_stars_is_syntax_error() {
    assert_eq!(
        parse_film(&record("2024", "[G]", "Some_Actor_A, Some_Actor_B")),
        Err(FilmParserError::SyntaxError)
    );
}

#[test]
fn list_keeps_order_and_repeats() {
    let film = parse_film(&record("2024", "[B, A, A]", "[S]")).unwrap();
    assert_eq!(film.genre, strings(&["B", "A", "A"]));
}

#[test]
fn quoted_item_is_still_cut_at_its_comma() {
    let film = parse_film(&record("2024", "[\"A, B\", \"C\"]", "[S]")).unwrap();
    assert_eq!(film.genre, strings(&["A", "B", "C"]));
}

#[test]
fn split_item_removes_quotes_and_cuts() {
    assert_eq!(split_item("\"A, B\""), strings(&["A", "B"]));
    assert_eq!(split_item("plain"), strings(&["plain"]));
    assert_eq!(split_item(" x ,y"), strings(&["x", "y"]));
}

#[test]
fn parse_vector_field_flattens_in_order() {
    let spans = strings(&["\"A, B\"", "C", "A"]);
    assert_eq!(Film::parse_vector_field(&spans), strings(&["A", "B", "C", "A"]));
}

#[test]
fn fields_out_of_order_are_syntax_error() {
    let text = "Year: 2023; Title: T; Director: D; Writer: W; Genre: [G]; Stars: [S]; Description: X";
    assert_eq!(parse_film(text), Err(FilmParserError::SyntaxError));
}

#[test]
fn repeated_field_is_syntax_error() {
    let text = "Title: T; Title: U; Year: 2023; Director: D; Writer: W; Genre: [G]; Stars: [S]; Description: X";
    assert_eq!(parse_film(text), Err(FilmParserError::SyntaxError));
}

#[test]
fn unknown_label_is_syntax_error() {
    let text = "Title: T; Year: 2023; Producer: P; Director: D; Writer: W; Genre: [G]; Stars: [S]; Description: X";
    assert_eq!(parse_film(text), Err(FilmParserError::SyntaxError));
    assert_eq!(parse_film("no label here"), Err(FilmParserError::SyntaxError));
}

#[test]
fn trailing_semicolon_is_accepted() {
    let text = format!("{};", FUNNY);
    assert_eq!(parse_film(&text).unwrap().title, "I Used To Be Funny");
}

#[test]
fn parse_record_gives_fields_in_order() {
    let parsed = FilmParser::parse_record("Title: A; Genre: [\"x, y\", z]").unwrap();
    assert_eq!(
        parsed.fields,
        vec![
            Field::Title("A".to_string()),
            Field::Genre(strings(&["\"x, y\"", "z"])),
        ]
    );
    assert_eq!(FilmParser::parse_record(" "), Err(FilmParserError::EmptyInput));
    let parsed = FilmParser::parse_record("Title: A").unwrap();
    assert_eq!(Film::parse_to_struct(&parsed), Err(FilmParserError::MissingFields));
}

#[test]
fn lenient_batch_keeps_going() {
    let records = vec![
        FUNNY.to_string(),
        "Title: Broken; Year: 2023;".to_string(),
        record("2001", "[G]", "[S]"),
    ];
    let outcome = parse_batch(&records, BatchPolicy::Lenient);
    assert_eq!(outcome.films.len(), 2);
    assert_eq!(outcome.films[0].title, "I Used To Be Funny");
    assert_eq!(outcome.films[1].year, 2001);
    assert_eq!(outcome.diagnostics.len(), 1);
    assert_eq!(outcome.diagnostics[0].record, "Title: Broken; Year: 2023;");
    assert_eq!(outcome.diagnostics[0].error, FilmParserError::MissingFields);
}

#[test]
fn lenient_batch_reports_every_failure_in_order() {
    let records = vec![
        "".to_string(),
        record("x", "[G]", "[S]"),
        FUNNY.to_string(),
        record("1", "G", "[S]"),
    ];
    let outcome = parse_batch(&records, BatchPolicy::default());
    assert_eq!(outcome.films.len(), 1);
    let errors: Vec<FilmParserError> =
        outcome.diagnostics.iter().map(|d| d.error.clone()).collect();
    assert_eq!(
        errors,
        vec![
            FilmParserError::EmptyInput,
            FilmParserError::InvalidYear,
            FilmParserError::SyntaxError
        ]
    );
}

#[test]
fn strict_batch_stops_at_first_failure() {
    let records = vec![
        FUNNY.to_string(),
        "Title: Broken; Year: 2023;".to_string(),
        record("2001", "[G]", "[S]"),
        "".to_string(),
    ];
    let outcome = parse_batch(&records, BatchPolicy::Strict);
    assert_eq!(outcome.films.len(), 1);
    assert_eq!(outcome.diagnostics.len(), 1);
    assert_eq!(outcome.diagnostics[0].record, "Title: Broken; Year: 2023;");
}

#[test]
fn parse_films_strict_fails_with_first_reason() {
    let records = vec![FUNNY.to_string(), record("x", "[G]", "[S]"), "".to_string()];
    assert_eq!(parse_films_strict(records), Err(FilmParserError::InvalidYear));
    let good = vec![FUNNY.to_string(), record("2001", "[G]", "[S]")];
    assert_eq!(parse_films_strict(good).unwrap().len(), 2);
    assert_eq!(parse_films_strict(Vec::new()).unwrap().len(), 0);
}

#[test]
fn parse_films_keeps_going_past_a_bad_record() {
    let records = vec![
        "Title: T1; Year: 2001; Director: D1; Writer: W1; Genre: [G1]; Stars: [S1]; Description: X1".to_string(),
        "Title: T2; Year: 2002;".to_string(),
        "Title: T3; Year: 2003; Director: D3; Writer: W3; Genre: [G3]; Stars: [S3]; Description: X3".to_string(),
    ];
    let (films, diagnostics) = parse_films(records);
    assert_eq!(films.len(), 2);
    assert_eq!(films[0].title, "T1");
    assert_eq!(films[0].year, 2001);
    assert_eq!(films[0].genre, strings(&["G1"]));
    assert_eq!(films[1].title, "T3");
    assert_eq!(films[1].description, "X3");
    assert_eq!(diagnostics.len(), 1);
    assert_eq!(diagnostics[0].record, "Title: T2; Year: 2002;");
    assert_eq!(diagnostics[0].error, FilmParserError::MissingFields);
}

#[test]
fn unicode_whitespace_only_is_empty_input() {
    assert_eq!(parse_film("\u{0C}"), Err(FilmParserError::EmptyInput));
    assert_eq!(parse_film("\u{A0}\u{3000}\u{0B}"), Err(FilmParserError::EmptyInput));
}

#[test]
fn unicode_whitespace_is_trimmed_from_values() {
    let film = parse_film(&record("2024", "[\u{0C}A\u{A0}, B\u{2003}]", "[\"\u{85}S\u{0C}\"]")).unwrap();
    assert_eq!(film.genre, strings(&["A", "B"]));
    assert_eq!(film.stars, strings(&["S"]));
    assert_eq!(split_item("\u{0C}A"), strings(&["A"]));
}

#[test]
fn inner_and_unmatched_quotes_are_items() {
    let film = parse_film(&record("2024", "[a\"b, c]", "[\"x\"y\"]")).unwrap();
    assert_eq!(film.genre, strings(&["a\"b", "c"]));
    assert_eq!(film.stars, strings(&["x\"y"]));
}

#[test]
fn empty_list_is_missing_fields() {
    assert_eq!(parse_film(&record("2024", "[ ]", "[S]")), Err(FilmParserError::MissingFields));
    let film = parse_film(&record("2024", "[A, ]", "[S]")).unwrap();
    assert_eq!(film.genre, strings(&["A", ""]));
}

#[test]
fn document_is_cut_into_non_blank_lines() {
    let doc = format!("{}\n\n  \n{}\n", FUNNY, record("2001", "[G]", "[S]"));
    let records = split_document(&doc);
    assert_eq!(records.len(), 2);
    assert_eq!(records[0], FUNNY);
    assert!(split_document("").is_empty());
}

#[test]
fn render_writes_seven_lines() {
    let film = parse_film(FUNNY).unwrap();
    assert_eq!(
        film.render(),
        "Title: I Used To Be Funny\nYear: 2023\nDirector: Ally Pankiw\nWriter: Ally Pankiw\nGenre: Comedy, Drama\nStars: Rachel Sennott, Olga Petsa, Jason Jones\nDescription: A stand-up comedian struggling with PTSD.\n"
    );
}

#[test]
fn decimal_string_values() {
    assert_eq!(decimal_string(0), "0");
    assert_eq!(decimal_string(7), "7");
    assert_eq!(decimal_string(2023), "2023");
    assert_eq!(decimal_string(4294967295), "4294967295");
}

#[test]
fn film_new_keeps_values() {
    let film = Film::new(
        "T".to_string(),
        1,
        "D".to_string(),
        "W".to_string(),
        strings(&["G"]),
        strings(&["S"]),
        "X".to_string(),
    );
    assert_eq!(film.title, "T");
    assert_eq!(film.year, 1);
    assert_eq!(film.genre, strings(&["G"]));
}
