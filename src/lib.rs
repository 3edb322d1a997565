//! Parsing of free-text film records into validated `Film` values.
//!
//! A record reads `Title: ...; Year: ...; Director: ...; Writer: ...;
//! Genre: [...]; Stars: [...]; Description: ...`. The `grammar` module
//! turns a record into its fields, `film` extracts and checks them, and
//! `batch` runs many records under a strict or a lenient policy. Every
//! executable function carries a contract over the spec functions of these
//! modules, and `laws` states what holds of all records.
pub mod batch;
pub mod error;
pub mod film;
pub mod grammar;
pub mod laws;
pub mod render;
pub mod text;

pub use batch::{parse_batch, parse_films, parse_films_strict, split_document, BatchOutcome, BatchPolicy, Diagnostic};
pub use error::FilmParserError;
pub use film::{parse_film, parse_year, split_item, Film};
pub use grammar::{Field, FieldKind, FilmParser, ParsedRecord};
pub use render::decimal_string;
