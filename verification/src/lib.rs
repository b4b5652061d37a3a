//! A bibliographic catalog for a personal digital audio library.
//!
//! The crate models a four-level Work / Expression / Manifestation / Item
//! hierarchy, an append-only provenance-assertion log, a declarative rules
//! engine that harmonizes multi-source claims into proposed tags, and the
//! decision logic of a staged, resumable processing pipeline.

pub mod acoustid;
pub mod clock;
pub mod config;
pub mod discogs;
pub mod enrich;
pub mod error;
pub mod fingerprint;
pub mod harmonize;
pub mod identify;
pub mod ids;
pub mod lastfm;
pub mod migrations;
pub mod model;
pub mod musicbrainz;
pub mod pipeline;
pub mod provenance;
pub mod ratelimit;
pub mod rules;
pub mod scan;
pub mod store;
pub mod taxonomy;
pub mod text;
pub mod value;
pub mod vocab;
pub mod wikidata;
pub mod workflow;
