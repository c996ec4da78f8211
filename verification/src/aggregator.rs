//! The aggregation payload: recent URLs, merged movies and recent tracks
//! assembled into one response. A failed upstream section degrades to an
//! empty list; it never fails the whole response.

use vstd::prelude::*;
use crate::errors::FetchError;
use crate::letterboxd::LetterboxdMovie;
use crate::spotify::SpotifyTrack;

verus! {

/// The aggregated response payload.
pub struct AggregatedData {
    pub urls: Vec<String>,
    pub movies: Vec<LetterboxdMovie>,
    pub tracks: Vec<SpotifyTrack>,
}

/// Assemble the aggregation payload: the queued URLs pass through, and
/// each upstream section contributes its value on success and an empty
/// list on failure.
pub fn aggregate(
    urls: Vec<String>,
    movies: Result<Vec<LetterboxdMovie>, FetchError>,
    tracks: Result<Vec<SpotifyTrack>, FetchError>,
) -> (r: AggregatedData)
    ensures
        r.urls == urls,
        movies matches Ok(m) ==> r.movies == m,
        movies is Err ==> r.movies@.len() == 0,
        tracks matches Ok(t) ==> r.tracks == t,
        tracks is Err ==> r.tracks@.len() == 0,
{
    AggregatedData {
        urls,
        movies: match movies {
            Ok(m) => m,
            Err(_) => Vec::new(),
        },
        tracks: match tracks {
            Ok(t) => t,
            Err(_) => Vec::new(),
        },
    }
}

} // verus!
