//! Typed responses of the acoustic-fingerprint service.
//!
//! The surrounding program performs the lookup call; the pipeline's
//! logic reads the ranked results here.

use vstd::prelude::*;

verus! {

/// An artist attached to a matched recording.
#[derive(Debug, PartialEq)]
pub struct AcoustIdArtist {
    /// The bibliographic artist identifier.
    pub id: String,
    /// The artist's display name.
    pub name: String,
}

/// A release attached to a matched recording.
#[derive(Debug, PartialEq)]
pub struct AcoustIdRelease {
    /// The bibliographic release identifier.
    pub id: String,
    /// The release title, when given.
    pub title: Option<String>,
}

/// A recording matched by fingerprint.
#[derive(Debug, PartialEq)]
pub struct AcoustIdRecording {
    /// The bibliographic recording identifier.
    pub id: String,
    /// The recording's title, when given.
    pub title: Option<String>,
    /// Attached artists, when given.
    pub artists: Option<Vec<AcoustIdArtist>>,
    /// Attached releases, when given.
    pub releases: Option<Vec<AcoustIdRelease>>,
}

/// One ranked result of a fingerprint lookup.
#[derive(Debug, PartialEq)]
pub struct AcoustIdResult {
    /// The service's result identifier.
    pub id: String,
    /// The match score, in hundredths (0 to 100).
    pub score: u32,
    /// Matched recordings, when given.
    pub recordings: Option<Vec<AcoustIdRecording>>,
}

/// The response to a fingerprint lookup.
#[derive(Debug, PartialEq)]
pub struct AcoustIdResponse {
    /// The service's status word.
    pub status: String,
    /// Ranked results, best first.
    pub results: Vec<AcoustIdResult>,
}

/// The recording identifier identification takes from a lookup: the
/// first result's first recording, when the response carries one.
pub open spec fn spec_lookup_choice(resp: AcoustIdResponse) -> Option<Seq<char>> {
    if resp.results@.len() > 0 {
        match resp.results@[0].recordings {
            Some(rs) => if rs@.len() > 0 {
                Some(rs@[0].id@)
            } else {
                None
            },
            None => None,
        }
    } else {
        None
    }
}

/// Take the first result's first recording identifier, if any.
pub fn choose_recording_from_lookup(resp: &AcoustIdResponse) -> (r: Option<String>)
    ensures
        match r {
            Some(id) => Some(id@) == spec_lookup_choice(*resp),
            None => spec_lookup_choice(*resp) is None,
        },
{
    if resp.results.len() == 0 {
        return None;
    }
    match &resp.results[0].recordings {
        Some(rs) => {
            if rs.len() > 0 {
                Some(rs[0].id.clone())
            } else {
                None
            }
        },
        None => None,
    }
}

} // verus!
