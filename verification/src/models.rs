//! Data carried between the catalog resolver, the metadata renderer and the
//! callers: search results, resolved show details, and the startup arguments.
use vstd::prelude::*;

verus! {

/// Startup arguments: where to find the unlabelled show directories, where to
/// place links and metadata, and whether to search even when files are
/// unchanged.
#[derive(Debug, Clone)]
pub struct Args {
    /// Source directory that holds one subdirectory per show.
    pub source: String,
    /// Destination directory for links and metadata.
    pub dest: String,
    /// Search the catalog even when a matching marker exists.
    pub force: bool,
}

/// One genre of a resolved show.
#[derive(Debug, Clone)]
pub struct Genre {
    pub name: String,
}

/// A fully resolved catalog record, as used to emit metadata.
///
/// The rating is carried as its decimal text, exactly as the catalog response
/// printed it.
#[derive(Debug, Clone)]
pub struct TvShowDetails {
    pub id: u32,
    pub name: String,
    pub overview: String,
    pub genres: Vec<Genre>,
    pub first_air_date: Option<String>,
    pub vote_average: String,
}

/// Whether a search candidate is a film or a TV show.
#[derive(Debug, Clone, Copy, PartialEq, Eq, Structural)]
pub enum MediaType {
    MOVIE,
    TV,
}

/// One entry of a search result page.
#[derive(Debug, Clone)]
pub struct SearchMultiResult {
    pub id: u32,
    pub overview: String,
    pub backdrop_path: String,
    pub poster_path: String,
    pub media_type: MediaType,
    /// Set on TV entries.
    pub name: Option<String>,
    pub original_name: Option<String>,
    pub first_air_date: Option<String>,
    /// Set on film entries.
    pub title: Option<String>,
    pub original_title: Option<String>,
    pub release_date: Option<String>,
}

/// One page of search results, with the pagination fields the resolver
/// consumes.
#[derive(Debug, Clone)]
pub struct SearchResponse<T> {
    pub page: u32,
    pub results: Vec<T>,
    pub total_pages: u32,
    pub total_results: u32,
}

} // verus!
