//! Provenance-tagged assertions: the unit of evidence the catalog stores.

use vstd::prelude::*;

use crate::clock::now_millis;
use crate::value::{FieldValue, Val};

verus! {

/// The source of a metadata assertion. The set is closed; values are
/// persisted verbatim.
#[derive(Debug, Clone, Copy, PartialEq, Eq, Structural, Hash)]
pub enum Source {
    /// Extracted from embedded audio file tags.
    EmbeddedTag,
    /// Acoustic fingerprint matching.
    AcoustId,
    /// The bibliographic database.
    MusicBrainz,
    /// The encyclopedic database.
    Wikidata,
    /// Folksonomy tags.
    LastFm,
    /// Library of Congress Genre/Form Terms.
    Lcgft,
    /// Library of Congress Medium of Performance Thesaurus.
    Lcmpt,
    /// The marketplace database.
    Discogs,
    /// Manual entry by the user.
    User,
}

/// A metadata assertion with provenance.
///
/// Confidence is stored in hundredths: `Some(90)` stands for a confidence
/// of nine tenths. A well-formed assertion's confidence never exceeds 100.
#[derive(Debug, PartialEq)]
pub struct Assertion {
    /// The entity this assertion is about.
    pub entity_id: String,
    /// The field being asserted (for example `genre`, `key`, `form`).
    pub field: String,
    /// The asserted value.
    pub value: FieldValue,
    /// Where this assertion came from.
    pub source: Source,
    /// Confidence in hundredths (0 to 100), if applicable.
    pub confidence: Option<u32>,
    /// When this assertion was fetched, in milliseconds since the epoch.
    pub fetched_at: i64,
}

/// The mathematical value of an [`Assertion`].
#[verifier::ext_equal]
pub ghost struct AssertionVal {
    /// The entity this assertion is about.
    pub entity_id: Seq<char>,
    /// The field being asserted.
    pub field: Seq<char>,
    /// The asserted value.
    pub value: Val,
    /// Where this assertion came from.
    pub source: Source,
    /// Confidence in hundredths, if applicable.
    pub confidence: Option<int>,
    /// When this assertion was fetched, in milliseconds since the epoch.
    pub fetched_at: int,
}

impl AssertionVal {
    /// A well-formed assertion's confidence, when present, is at most 100.
    pub open spec fn wf(self) -> bool {
        match self.confidence {
            Some(c) => 0 <= c <= 100,
            None => true,
        }
    }
}

impl View for Assertion {
    type V = AssertionVal;

    open spec fn view(&self) -> AssertionVal {
        AssertionVal {
            entity_id: self.entity_id@,
            field: self.field@,
            value: self.value@,
            source: self.source,
            confidence: match self.confidence {
                Some(c) => Some(c as int),
                None => None,
            },
            fetched_at: self.fetched_at as int,
        }
    }
}

impl Assertion {
    /// Build an assertion with no confidence; the fetch time is the
    /// current clock reading.
    pub fn new(entity_id: &str, field: &str, value: FieldValue, source: Source) -> (r: Assertion)
        ensures
            r@.entity_id == entity_id@,
            r@.field == field@,
            r@.value == value@,
            r@.source == source,
            r@.confidence is None,
            r@.wf(),
    {
        Assertion {
            entity_id: entity_id.to_owned(),
            field: field.to_owned(),
            value,
            source,
            confidence: None,
            fetched_at: now_millis(),
        }
    }

    /// The same assertion with the given confidence, in hundredths.
    pub fn with_confidence(self, confidence: u32) -> (r: Assertion)
        requires
            confidence <= 100,
        ensures
            r@ == (AssertionVal { confidence: Some(confidence as int), ..self@ }),
            r@.wf(),
    {
        Assertion { confidence: Some(confidence), ..self }
    }
}

impl Clone for Assertion {
    /// A copy with the same mathematical value.
    fn clone(&self) -> (r: Self)
        ensures
            r@ == self@,
    {
        Assertion {
            entity_id: self.entity_id.clone(),
            field: self.field.clone(),
            value: self.value.clone(),
            source: self.source,
            confidence: self.confidence,
            fetched_at: self.fetched_at,
        }
    }
}

} // verus!
