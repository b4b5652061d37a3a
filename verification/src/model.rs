//! The bibliographic entity model: Work, Expression, Manifestation, Item,
//! and Artist.
//!
//! A Work is an abstract composition; an Expression is a recorded
//! performance of a Work; a Manifestation is a release carrying
//! Expressions; an Item is a single audio file on disk. Artists hang off
//! Expressions (performers, conductor) and Works (composer).

use vstd::prelude::*;

use crate::clock::now_millis;
use crate::ids::{ArtistId, ExpressionId, ItemId, ManifestationId, WorkId};
use crate::text::{chars_of, chars_eq, clone_opt_string, clone_plain, lower_seq, lower_vec};

verus! {

/// The view of an optional string.
pub open spec fn opt_view(o: Option<String>) -> Option<Seq<char>> {
    match o {
        Some(s) => Some(s@),
        None => None,
    }
}

/// The role an artist plays in a musical context.
#[derive(Debug, Clone, Copy, PartialEq, Eq, Structural, Hash)]
pub enum ArtistRole {
    /// Wrote the work.
    Composer,
    /// Performed on the recording.
    Performer,
    /// Conducted the recording.
    Conductor,
    /// A performing group.
    Ensemble,
    /// Produced the recording.
    Producer,
    /// Any other role.
    Other,
}

/// The format of an audio file.
#[derive(Debug, Clone, Copy, PartialEq, Eq, Structural, Hash)]
pub enum AudioFormat {
    /// Free Lossless Audio Codec.
    Flac,
    /// MPEG layer III.
    Mp3,
    /// Ogg Vorbis.
    Ogg,
    /// Waveform audio.
    Wav,
    /// Advanced Audio Coding.
    Aac,
    /// Anything else.
    Other,
}

/// The audio format named by a file extension, compared without regard
/// to case.
pub open spec fn spec_format_of(ext: Seq<char>) -> AudioFormat {
    let e = lower_seq(ext);
    if e == "flac"@ {
        AudioFormat::Flac
    } else if e == "mp3"@ {
        AudioFormat::Mp3
    } else if e == "ogg"@ || e == "oga"@ {
        AudioFormat::Ogg
    } else if e == "wav"@ {
        AudioFormat::Wav
    } else if e == "aac"@ || e == "m4a"@ {
        AudioFormat::Aac
    } else {
        AudioFormat::Other
    }
}

impl AudioFormat {
    /// Detect the format from a file extension, without regard to case.
    pub fn from_extension(ext: &str) -> (r: AudioFormat)
        ensures
            r == spec_format_of(ext@),
    {
        let e = lower_vec(&chars_of(ext));
        if chars_eq(&e, &chars_of("flac")) {
            AudioFormat::Flac
        } else if chars_eq(&e, &chars_of("mp3")) {
            AudioFormat::Mp3
        } else if chars_eq(&e, &chars_of("ogg")) || chars_eq(&e, &chars_of("oga")) {
            AudioFormat::Ogg
        } else if chars_eq(&e, &chars_of("wav")) {
            AudioFormat::Wav
        } else if chars_eq(&e, &chars_of("aac")) || chars_eq(&e, &chars_of("m4a")) {
            AudioFormat::Aac
        } else {
            AudioFormat::Other
        }
    }
}

/// A distinct musical work (composition).
#[derive(Debug, PartialEq)]
pub struct Work {
    /// The opaque identity.
    pub id: WorkId,
    /// The work's title.
    pub title: String,
    /// The composer's name, if known.
    pub composer: Option<String>,
    /// The bibliographic external identifier, if identified.
    pub musicbrainz_id: Option<String>,
    /// Catalog designation (BWV, K., Op., and the like).
    pub catalog_number: Option<String>,
    /// Musical key (for example `A minor`).
    pub key: Option<String>,
    /// Year of composition, if known.
    pub composed_year: Option<i32>,
    /// Creation time, milliseconds since the epoch.
    pub created_at: i64,
    /// Last update time, milliseconds since the epoch.
    pub updated_at: i64,
}

/// The mathematical value of a [`Work`].
#[verifier::ext_equal]
pub ghost struct WorkVal {
    /// The opaque identity.
    pub id: WorkId,
    /// The work's title.
    pub title: Seq<char>,
    /// The composer's name, if known.
    pub composer: Option<Seq<char>>,
    /// The bibliographic external identifier, if identified.
    pub musicbrainz_id: Option<Seq<char>>,
    /// Catalog designation.
    pub catalog_number: Option<Seq<char>>,
    /// Musical key.
    pub key: Option<Seq<char>>,
    /// Year of composition, if known.
    pub composed_year: Option<int>,
    /// Creation time.
    pub created_at: int,
    /// Last update time.
    pub updated_at: int,
}

impl View for Work {
    type V = WorkVal;

    open spec fn view(&self) -> WorkVal {
        WorkVal {
            id: self.id,
            title: self.title@,
            composer: opt_view(self.composer),
            musicbrainz_id: opt_view(self.musicbrainz_id),
            catalog_number: opt_view(self.catalog_number),
            key: opt_view(self.key),
            composed_year: match self.composed_year {
                Some(y) => Some(y as int),
                None => None,
            },
            created_at: self.created_at as int,
            updated_at: self.updated_at as int,
        }
    }
}

impl Work {
    /// A new work with the given title, a fresh identity, and every other
    /// attribute absent.
    pub fn new(title: &str) -> (r: Work)
        ensures
            r@.title == title@,
            r@.composer is None,
            r@.musicbrainz_id is None,
            r@.catalog_number is None,
            r@.key is None,
            r@.composed_year is None,
            r@.created_at == r@.updated_at,
    {
        let now = now_millis();
        Work {
            id: WorkId::new(),
            title: title.to_owned(),
            composer: None,
            musicbrainz_id: None,
            catalog_number: None,
            key: None,
            composed_year: None,
            created_at: now,
            updated_at: now,
        }
    }

    /// The same work with the composer set.
    pub fn with_composer(self, composer: &str) -> (r: Work)
        ensures
            r@ == (WorkVal { composer: Some(composer@), ..self@ }),
    {
        Work { composer: Some(composer.to_owned()), ..self }
    }

    /// The same work with the external identifier set.
    pub fn with_musicbrainz_id(self, mbid: &str) -> (r: Work)
        ensures
            r@ == (WorkVal { musicbrainz_id: Some(mbid@), ..self@ }),
    {
        Work { musicbrainz_id: Some(mbid.to_owned()), ..self }
    }

    /// The same work with the catalog designation set.
    pub fn with_catalog_number(self, catalog: &str) -> (r: Work)
        ensures
            r@ == (WorkVal { catalog_number: Some(catalog@), ..self@ }),
    {
        Work { catalog_number: Some(catalog.to_owned()), ..self }
    }

    /// The same work with the key set.
    pub fn with_key(self, key: &str) -> (r: Work)
        ensures
            r@ == (WorkVal { key: Some(key@), ..self@ }),
    {
        Work { key: Some(key.to_owned()), ..self }
    }

    /// The same work with the composition year set.
    pub fn with_composed_year(self, year: i32) -> (r: Work)
        ensures
            r@ == (WorkVal { composed_year: Some(year as int), ..self@ }),
    {
        Work { composed_year: Some(year), ..self }
    }
}

impl Clone for Work {
    /// A copy with the same mathematical value.
    fn clone(&self) -> (r: Self)
        ensures
            r@ == self@,
    {
        Work {
            id: self.id,
            title: self.title.clone(),
            composer: clone_opt_string(&self.composer),
            musicbrainz_id: clone_opt_string(&self.musicbrainz_id),
            catalog_number: clone_opt_string(&self.catalog_number),
            key: clone_opt_string(&self.key),
            composed_year: self.composed_year,
            created_at: self.created_at,
            updated_at: self.updated_at,
        }
    }
}

/// An artist: a person or group.
#[derive(Debug, PartialEq)]
pub struct Artist {
    /// The opaque identity.
    pub id: ArtistId,
    /// The display name.
    pub name: String,
    /// The name used for sorting, if known.
    pub sort_name: Option<String>,
    /// The bibliographic external identifier, if identified.
    pub musicbrainz_id: Option<String>,
    /// The roles this artist is known for.
    pub roles: Vec<ArtistRole>,
    /// Creation time, milliseconds since the epoch.
    pub created_at: i64,
    /// Last update time, milliseconds since the epoch.
    pub updated_at: i64,
}

/// The mathematical value of an [`Artist`].
#[verifier::ext_equal]
pub ghost struct ArtistVal {
    /// The opaque identity.
    pub id: ArtistId,
    /// The display name.
    pub name: Seq<char>,
    /// The name used for sorting, if known.
    pub sort_name: Option<Seq<char>>,
    /// The bibliographic external identifier, if identified.
    pub musicbrainz_id: Option<Seq<char>>,
    /// The roles this artist is known for.
    pub roles: Seq<ArtistRole>,
    /// Creation time.
    pub created_at: int,
    /// Last update time.
    pub updated_at: int,
}

impl View for Artist {
    type V = ArtistVal;

    open spec fn view(&self) -> ArtistVal {
        ArtistVal {
            id: self.id,
            name: self.name@,
            sort_name: opt_view(self.sort_name),
            musicbrainz_id: opt_view(self.musicbrainz_id),
            roles: self.roles@,
            created_at: self.created_at as int,
            updated_at: self.updated_at as int,
        }
    }
}

impl Artist {
    /// A new artist with the given name, a fresh identity, no roles, and
    /// every other attribute absent.
    pub fn new(name: &str) -> (r: Artist)
        ensures
            r@.name == name@,
            r@.sort_name is None,
            r@.musicbrainz_id is None,
            r@.roles.len() == 0,
            r@.created_at == r@.updated_at,
    {
        let now = now_millis();
        Artist {
            id: ArtistId::new(),
            name: name.to_owned(),
            sort_name: None,
            musicbrainz_id: None,
            roles: Vec::new(),
            created_at: now,
            updated_at: now,
        }
    }

    /// The same artist with a role appended.
    pub fn with_role(self, role: ArtistRole) -> (r: Artist)
        ensures
            r@ == (ArtistVal { roles: self@.roles.push(role), ..self@ }),
    {
        let mut roles = self.roles;
        roles.push(role);
        Artist { roles, ..self }
    }

    /// The same artist with the external identifier set.
    pub fn with_musicbrainz_id(self, mbid: &str) -> (r: Artist)
        ensures
            r@ == (ArtistVal { musicbrainz_id: Some(mbid@), ..self@ }),
    {
        Artist { musicbrainz_id: Some(mbid.to_owned()), ..self }
    }
}

impl Clone for Artist {
    /// A copy with the same mathematical value.
    fn clone(&self) -> (r: Self)
        ensures
            r@ == self@,
    {
        Artist {
            id: self.id,
            name: self.name.clone(),
            sort_name: clone_opt_string(&self.sort_name),
            musicbrainz_id: clone_opt_string(&self.musicbrainz_id),
            roles: clone_plain(&self.roles),
            created_at: self.created_at,
            updated_at: self.updated_at,
        }
    }
}

/// A specific performance or recording of a Work.
#[derive(Debug, PartialEq)]
pub struct Expression {
    /// The opaque identity.
    pub id: ExpressionId,
    /// The Work this expression performs.
    pub work_id: WorkId,
    /// The recording's title, if known.
    pub title: Option<String>,
    /// The bibliographic external identifier, if identified.
    pub musicbrainz_id: Option<String>,
    /// Primary performers.
    pub performer_ids: Vec<ArtistId>,
    /// The conductor, if applicable.
    pub conductor_id: Option<ArtistId>,
    /// The year of recording, if known.
    pub recorded_year: Option<i32>,
    /// Duration in whole seconds, if known.
    pub duration_secs: Option<u32>,
    /// Creation time, milliseconds since the epoch.
    pub created_at: i64,
    /// Last update time, milliseconds since the epoch.
    pub updated_at: i64,
}

/// The mathematical value of an [`Expression`].
#[verifier::ext_equal]
pub ghost struct ExpressionVal {
    /// The opaque identity.
    pub id: ExpressionId,
    /// The Work this expression performs.
    pub work_id: WorkId,
    /// The recording's title, if known.
    pub title: Option<Seq<char>>,
    /// The bibliographic external identifier, if identified.
    pub musicbrainz_id: Option<Seq<char>>,
    /// Primary performers.
    pub performer_ids: Seq<ArtistId>,
    /// The conductor, if applicable.
    pub conductor_id: Option<ArtistId>,
    /// The year of recording, if known.
    pub recorded_year: Option<int>,
    /// Duration in whole seconds, if known.
    pub duration_secs: Option<int>,
    /// Creation time.
    pub created_at: int,
    /// Last update time.
    pub updated_at: int,
}

impl View for Expression {
    type V = ExpressionVal;

    open spec fn view(&self) -> ExpressionVal {
        ExpressionVal {
            id: self.id,
            work_id: self.work_id,
            title: opt_view(self.title),
            musicbrainz_id: opt_view(self.musicbrainz_id),
            performer_ids: self.performer_ids@,
            conductor_id: self.conductor_id,
            recorded_year: match self.recorded_year {
                Some(y) => Some(y as int),
                None => None,
            },
            duration_secs: match self.duration_secs {
                Some(d) => Some(d as int),
                None => None,
            },
            created_at: self.created_at as int,
            updated_at: self.updated_at as int,
        }
    }
}

impl Expression {
    /// A new expression of the given work, with a fresh identity and every
    /// other attribute absent.
    pub fn new(work_id: WorkId) -> (r: Expression)
        ensures
            r@.work_id == work_id,
            r@.title is None,
            r@.musicbrainz_id is None,
            r@.performer_ids.len() == 0,
            r@.conductor_id is None,
            r@.recorded_year is None,
            r@.duration_secs is None,
            r@.created_at == r@.updated_at,
    {
        let now = now_millis();
        Expression {
            id: ExpressionId::new(),
            work_id,
            title: None,
            musicbrainz_id: None,
            performer_ids: Vec::new(),
            conductor_id: None,
            recorded_year: None,
            duration_secs: None,
            created_at: now,
            updated_at: now,
        }
    }

    /// The same expression with the title set.
    pub fn with_title(self, title: &str) -> (r: Expression)
        ensures
            r@ == (ExpressionVal { title: Some(title@), ..self@ }),
    {
        Expression { title: Some(title.to_owned()), ..self }
    }

    /// The same expression with the external identifier set.
    pub fn with_musicbrainz_id(self, mbid: &str) -> (r: Expression)
        ensures
            r@ == (ExpressionVal { musicbrainz_id: Some(mbid@), ..self@ }),
    {
        Expression { musicbrainz_id: Some(mbid.to_owned()), ..self }
    }

    /// The same expression with a performer appended.
    pub fn with_performer(self, performer_id: ArtistId) -> (r: Expression)
        ensures
            r@ == (ExpressionVal { performer_ids: self@.performer_ids.push(performer_id), ..self@ }),
    {
        let mut performer_ids = self.performer_ids;
        performer_ids.push(performer_id);
        Expression { performer_ids, ..self }
    }

    /// The same expression with the conductor set.
    pub fn with_conductor(self, conductor_id: ArtistId) -> (r: Expression)
        ensures
            r@ == (ExpressionVal { conductor_id: Some(conductor_id), ..self@ }),
    {
        Expression { conductor_id: Some(conductor_id), ..self }
    }

    /// The same expression with the duration set, in whole seconds.
    pub fn with_duration(self, secs: u32) -> (r: Expression)
        ensures
            r@ == (ExpressionVal { duration_secs: Some(secs as int), ..self@ }),
    {
        Expression { duration_secs: Some(secs), ..self }
    }
}

impl Clone for Expression {
    /// A copy with the same mathematical value.
    fn clone(&self) -> (r: Self)
        ensures
            r@ == self@,
    {
        Expression {
            id: self.id,
            work_id: self.work_id,
            title: clone_opt_string(&self.title),
            musicbrainz_id: clone_opt_string(&self.musicbrainz_id),
            performer_ids: clone_plain(&self.performer_ids),
            conductor_id: self.conductor_id,
            recorded_year: self.recorded_year,
            duration_secs: self.duration_secs,
            created_at: self.created_at,
            updated_at: self.updated_at,
        }
    }
}

/// A specific release (CD, LP, digital) of one or more recordings.
#[derive(Debug, PartialEq)]
pub struct Manifestation {
    /// The opaque identity.
    pub id: ManifestationId,
    /// The release title.
    pub title: String,
    /// The bibliographic external identifier, if identified.
    pub musicbrainz_id: Option<String>,
    /// The record label, if known.
    pub label: Option<String>,
    /// The label's catalog number, if known.
    pub catalog_number: Option<String>,
    /// The release year, if known.
    pub release_year: Option<i32>,
    /// The number of tracks, if known.
    pub track_count: Option<u32>,
    /// The number of discs, if known.
    pub disc_count: Option<u32>,
    /// The medium (for example `CD`, `LP`, `Digital`), if known.
    pub format: Option<String>,
    /// Creation time, milliseconds since the epoch.
    pub created_at: i64,
    /// Last update time, milliseconds since the epoch.
    pub updated_at: i64,
}

/// The mathematical value of a [`Manifestation`].
#[verifier::ext_equal]
pub ghost struct ManifestationVal {
    /// The opaque identity.
    pub id: ManifestationId,
    /// The release title.
    pub title: Seq<char>,
    /// The bibliographic external identifier, if identified.
    pub musicbrainz_id: Option<Seq<char>>,
    /// The record label, if known.
    pub label: Option<Seq<char>>,
    /// The label's catalog number, if known.
    pub catalog_number: Option<Seq<char>>,
    /// The release year, if known.
    pub release_year: Option<int>,
    /// The number of tracks, if known.
    pub track_count: Option<int>,
    /// The number of discs, if known.
    pub disc_count: Option<int>,
    /// The medium, if known.
    pub format: Option<Seq<char>>,
    /// Creation time.
    pub created_at: int,
    /// Last update time.
    pub updated_at: int,
}

impl View for Manifestation {
    type V = ManifestationVal;

    open spec fn view(&self) -> ManifestationVal {
        ManifestationVal {
            id: self.id,
            title: self.title@,
            musicbrainz_id: opt_view(self.musicbrainz_id),
            label: opt_view(self.label),
            catalog_number: opt_view(self.catalog_number),
            release_year: match self.release_year {
                Some(y) => Some(y as int),
                None => None,
            },
            track_count: match self.track_count {
                Some(c) => Some(c as int),
                None => None,
            },
            disc_count: match self.disc_count {
                Some(c) => Some(c as int),
                None => None,
            },
            format: opt_view(self.format),
            created_at: self.created_at as int,
            updated_at: self.updated_at as int,
        }
    }
}

impl Manifestation {
    /// A new release with the given title, a fresh identity, and every
    /// other attribute absent.
    pub fn new(title: &str) -> (r: Manifestation)
        ensures
            r@.title == title@,
            r@.musicbrainz_id is None,
            r@.label is None,
            r@.catalog_number is None,
            r@.release_year is None,
            r@.track_count is None,
            r@.disc_count is None,
            r@.format is None,
            r@.created_at == r@.updated_at,
    {
        let now = now_millis();
        Manifestation {
            id: ManifestationId::new(),
            title: title.to_owned(),
            musicbrainz_id: None,
            label: None,
            catalog_number: None,
            release_year: None,
            track_count: None,
            disc_count: None,
            format: None,
            created_at: now,
            updated_at: now,
        }
    }

    /// The same release with the external identifier set.
    pub fn with_musicbrainz_id(self, mbid: &str) -> (r: Manifestation)
        ensures
            r@ == (ManifestationVal { musicbrainz_id: Some(mbid@), ..self@ }),
    {
        Manifestation { musicbrainz_id: Some(mbid.to_owned()), ..self }
    }

    /// The same release with the label set.
    pub fn with_label(self, label: &str) -> (r: Manifestation)
        ensures
            r@ == (ManifestationVal { label: Some(label@), ..self@ }),
    {
        Manifestation { label: Some(label.to_owned()), ..self }
    }

    /// The same release with the release year set.
    pub fn with_release_year(self, year: i32) -> (r: Manifestation)
        ensures
            r@ == (ManifestationVal { release_year: Some(year as int), ..self@ }),
    {
        Manifestation { release_year: Some(year), ..self }
    }
}

impl Clone for Manifestation {
    /// A copy with the same mathematical value.
    fn clone(&self) -> (r: Self)
        ensures
            r@ == self@,
    {
        Manifestation {
            id: self.id,
            title: self.title.clone(),
            musicbrainz_id: clone_opt_string(&self.musicbrainz_id),
            label: clone_opt_string(&self.label),
            catalog_number: clone_opt_string(&self.catalog_number),
            release_year: self.release_year,
            track_count: self.track_count,
            disc_count: self.disc_count,
            format: clone_opt_string(&self.format),
            created_at: self.created_at,
            updated_at: self.updated_at,
        }
    }
}

/// A specific audio file on disk.
#[derive(Debug, PartialEq)]
pub struct Item {
    /// The opaque identity.
    pub id: ItemId,
    /// The recording this file contains, once identified.
    pub expression_id: Option<ExpressionId>,
    /// The release this file belongs to, once identified.
    pub manifestation_id: Option<ManifestationId>,
    /// The path of the audio file.
    pub file_path: String,
    /// The audio format.
    pub format: AudioFormat,
    /// File size in bytes.
    pub file_size: u64,
    /// File modification time, milliseconds since the epoch.
    pub file_mtime: i64,
    /// A content hash, if computed.
    pub file_hash: Option<String>,
    /// The encoded acoustic fingerprint, if computed.
    pub fingerprint: Option<String>,
    /// Fingerprint match confidence in hundredths, if matched.
    pub fingerprint_score: Option<u32>,
    /// Track title from embedded tags, if present.
    pub tag_title: Option<String>,
    /// Artist from embedded tags, if present.
    pub tag_artist: Option<String>,
    /// Album from embedded tags, if present.
    pub tag_album: Option<String>,
    /// Album artist from embedded tags, if present.
    pub tag_album_artist: Option<String>,
    /// Track number from embedded tags, if present.
    pub tag_track_number: Option<u32>,
    /// Disc number from embedded tags, if present.
    pub tag_disc_number: Option<u32>,
    /// Year from embedded tags, if present.
    pub tag_year: Option<i32>,
    /// Genre from embedded tags, if present.
    pub tag_genre: Option<String>,
    /// Duration in whole seconds, if known.
    pub duration_secs: Option<u32>,
    /// Creation time, milliseconds since the epoch.
    pub created_at: i64,
    /// Last update time, milliseconds since the epoch.
    pub updated_at: i64,
}

/// The mathematical value of an [`Item`].
#[verifier::ext_equal]
pub ghost struct ItemVal {
    /// The opaque identity.
    pub id: ItemId,
    /// The recording this file contains, once identified.
    pub expression_id: Option<ExpressionId>,
    /// The release this file belongs to, once identified.
    pub manifestation_id: Option<ManifestationId>,
    /// The path of the audio file.
    pub file_path: Seq<char>,
    /// The audio format.
    pub format: AudioFormat,
    /// File size in bytes.
    pub file_size: int,
    /// File modification time.
    pub file_mtime: int,
    /// A content hash, if computed.
    pub file_hash: Option<Seq<char>>,
    /// The encoded acoustic fingerprint, if computed.
    pub fingerprint: Option<Seq<char>>,
    /// Fingerprint match confidence in hundredths, if matched.
    pub fingerprint_score: Option<int>,
    /// Track title from embedded tags, if present.
    pub tag_title: Option<Seq<char>>,
    /// Artist from embedded tags, if present.
    pub tag_artist: Option<Seq<char>>,
    /// Album from embedded tags, if present.
    pub tag_album: Option<Seq<char>>,
    /// Album artist from embedded tags, if present.
    pub tag_album_artist: Option<Seq<char>>,
    /// Track number from embedded tags, if present.
    pub tag_track_number: Option<int>,
    /// Disc number from embedded tags, if present.
    pub tag_disc_number: Option<int>,
    /// Year from embedded tags, if present.
    pub tag_year: Option<int>,
    /// Genre from embedded tags, if present.
    pub tag_genre: Option<Seq<char>>,
    /// Duration in whole seconds, if known.
    pub duration_secs: Option<int>,
    /// Creation time.
    pub created_at: int,
    /// Last update time.
    pub updated_at: int,
}

impl View for Item {
    type V = ItemVal;

    open spec fn view(&self) -> ItemVal {
        ItemVal {
            id: self.id,
            expression_id: self.expression_id,
            manifestation_id: self.manifestation_id,
            file_path: self.file_path@,
            format: self.format,
            file_size: self.file_size as int,
            file_mtime: self.file_mtime as int,
            file_hash: opt_view(self.file_hash),
            fingerprint: opt_view(self.fingerprint),
            fingerprint_score: match self.fingerprint_score {
                Some(s) => Some(s as int),
                None => None,
            },
            tag_title: opt_view(self.tag_title),
            tag_artist: opt_view(self.tag_artist),
            tag_album: opt_view(self.tag_album),
            tag_album_artist: opt_view(self.tag_album_artist),
            tag_track_number: match self.tag_track_number {
                Some(n) => Some(n as int),
                None => None,
            },
            tag_disc_number: match self.tag_disc_number {
                Some(n) => Some(n as int),
                None => None,
            },
            tag_year: match self.tag_year {
                Some(y) => Some(y as int),
                None => None,
            },
            tag_genre: opt_view(self.tag_genre),
            duration_secs: match self.duration_secs {
                Some(d) => Some(d as int),
                None => None,
            },
            created_at: self.created_at as int,
            updated_at: self.updated_at as int,
        }
    }
}

impl Item {
    /// A new, unidentified item for the given file, with a fresh identity,
    /// no tags, and no fingerprint.
    pub fn new(file_path: &str, format: AudioFormat, file_size: u64, file_mtime: i64) -> (r: Item)
        ensures
            r@.expression_id is None,
            r@.manifestation_id is None,
            r@.file_path == file_path@,
            r@.format == format,
            r@.file_size == file_size as int,
            r@.file_mtime == file_mtime as int,
            r@.file_hash is None,
            r@.fingerprint is None,
            r@.fingerprint_score is None,
            r@.tag_title is None,
            r@.tag_artist is None,
            r@.tag_album is None,
            r@.tag_album_artist is None,
            r@.tag_track_number is None,
            r@.tag_disc_number is None,
            r@.tag_year is None,
            r@.tag_genre is None,
            r@.duration_secs is None,
            r@.created_at == r@.updated_at,
    {
        let now = now_millis();
        Item {
            id: ItemId::new(),
            expression_id: None,
            manifestation_id: None,
            file_path: file_path.to_owned(),
            format,
            file_size,
            file_mtime,
            file_hash: None,
            fingerprint: None,
            fingerprint_score: None,
            tag_title: None,
            tag_artist: None,
            tag_album: None,
            tag_album_artist: None,
            tag_track_number: None,
            tag_disc_number: None,
            tag_year: None,
            tag_genre: None,
            duration_secs: None,
            created_at: now,
            updated_at: now,
        }
    }

    /// Whether this item has been identified: linked to an Expression.
    pub fn is_identified(&self) -> (r: bool)
        ensures
            r == (self@.expression_id is Some),
    {
        self.expression_id.is_some()
    }
}

impl Clone for Item {
    /// A copy with the same mathematical value.
    fn clone(&self) -> (r: Self)
        ensures
            r@ == self@,
    {
        Item {
            id: self.id,
            expression_id: self.expression_id,
            manifestation_id: self.manifestation_id,
            file_path: self.file_path.clone(),
            format: self.format,
            file_size: self.file_size,
            file_mtime: self.file_mtime,
            file_hash: clone_opt_string(&self.file_hash),
            fingerprint: clone_opt_string(&self.fingerprint),
            fingerprint_score: self.fingerprint_score,
            tag_title: clone_opt_string(&self.tag_title),
            tag_artist: clone_opt_string(&self.tag_artist),
            tag_album: clone_opt_string(&self.tag_album),
            tag_album_artist: clone_opt_string(&self.tag_album_artist),
            tag_track_number: self.tag_track_number,
            tag_disc_number: self.tag_disc_number,
            tag_year: self.tag_year,
            tag_genre: clone_opt_string(&self.tag_genre),
            duration_secs: self.duration_secs,
            created_at: self.created_at,
            updated_at: self.updated_at,
        }
    }
}

} // verus!
