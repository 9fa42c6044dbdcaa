//! Resolution of streaming-catalog URLs into typed references, and ranking of
//! the genres found behind them.

pub mod catalog;
pub mod error;
pub mod genres;
pub mod handler;
pub mod shortlink;
pub mod url_parser;

pub use error::{status_code, MySpotifyError};
pub use url_parser::{parse_url, parse_url_with, UrlParseResult};
pub use catalog::{primary_artist, track_ids_from_items, PlaylistItem};
pub use genres::{aggregate, count_genres, genre_names, GenreCount};
pub use handler::{next_step, Step};
pub use shortlink::resolve_location;
