//! Typed responses of the bibliographic service, as the identify and
//! enrich stages read them.
//!
//! The surrounding program performs the HTTP calls and decodes the wire
//! format into these plain structures; everything the pipeline's logic
//! does with them happens here, verified.

use vstd::prelude::*;

verus! {

/// An artist reference on a recording or work.
#[derive(Debug, PartialEq)]
pub struct MbArtist {
    /// The provider's artist identifier.
    pub id: String,
    /// The artist's display name.
    pub name: String,
}

/// An artist credit entry on a recording.
#[derive(Debug, PartialEq)]
pub struct MbArtistCredit {
    /// The credited artist.
    pub artist: MbArtist,
}

/// A release group reference.
#[derive(Debug, PartialEq)]
pub struct MbReleaseGroup {
    /// The provider's release-group identifier.
    pub id: String,
}

/// A release summary returned with a recording.
#[derive(Debug, PartialEq)]
pub struct MbRelease {
    /// The provider's release identifier.
    pub id: String,
    /// The release title.
    pub title: String,
    /// The release group, when given.
    pub release_group: Option<MbReleaseGroup>,
}

/// A work summary in a recording relation.
#[derive(Debug, PartialEq)]
pub struct MbWork {
    /// The provider's work identifier.
    pub id: String,
    /// The work's title.
    pub title: String,
}

/// A relation on a recording; a `performance` relation links to a work.
#[derive(Debug, PartialEq)]
pub struct MbRelation {
    /// The relation's type.
    pub relation_type: String,
    /// The related work, for work relations.
    pub work: Option<MbWork>,
}

/// A recording with its credits, releases, and relations.
#[derive(Debug, PartialEq)]
pub struct MbRecording {
    /// The provider's recording identifier.
    pub id: String,
    /// The recording's title.
    pub title: String,
    /// The credited artists, when given.
    pub artist_credit: Option<Vec<MbArtistCredit>>,
    /// Releases carrying this recording, when given.
    pub releases: Option<Vec<MbRelease>>,
    /// Relations; a `performance` entry links to the work performed.
    pub relations: Vec<MbRelation>,
}

/// A relation on a work; a `composer` relation links to an artist.
#[derive(Debug, PartialEq)]
pub struct MbWorkRelation {
    /// The relation's type.
    pub relation_type: String,
    /// The related artist, for artist relations.
    pub artist: Option<MbArtist>,
    /// Free-form attributes of the relation.
    pub attributes: Vec<String>,
}

/// Full work details: relations and free-form attributes (key
/// signatures appear among the attributes).
#[derive(Debug, PartialEq)]
pub struct MbWorkDetail {
    /// The provider's work identifier.
    pub id: String,
    /// The work's title.
    pub title: String,
    /// Relations; a `composer` entry links to the composing artist.
    pub relations: Vec<MbWorkRelation>,
    /// Free-form attributes; the first is read as the musical key.
    pub attributes: Vec<String>,
}

/// A record label.
#[derive(Debug, PartialEq)]
pub struct MbLabel {
    /// The provider's label identifier.
    pub id: String,
    /// The label's name.
    pub name: String,
}

/// Label information attached to a release.
#[derive(Debug, PartialEq)]
pub struct MbLabelInfo {
    /// The label's catalog number for the release, when given.
    pub catalog_number: Option<String>,
    /// The label, when given.
    pub label: Option<MbLabel>,
}

/// A media entry (disc) on a release.
#[derive(Debug, PartialEq)]
pub struct MbMedia {
    /// The disc's position, when given.
    pub position: Option<u32>,
    /// The medium's format, when given.
    pub format: Option<String>,
    /// The number of tracks, when given.
    pub track_count: Option<u32>,
}

/// Full release details: date, labels, and media.
#[derive(Debug, PartialEq)]
pub struct MbReleaseDetail {
    /// The provider's release identifier.
    pub id: String,
    /// The release title.
    pub title: String,
    /// The release date, as `YYYY` or `YYYY-MM-DD`, when given.
    pub date: Option<String>,
    /// Label information entries.
    pub label_info: Vec<MbLabelInfo>,
    /// Media entries.
    pub media: Vec<MbMedia>,
}

} // verus!
