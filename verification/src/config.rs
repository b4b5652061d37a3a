//! The pipeline's configuration, as the stages read it.
//!
//! Loading — the configuration file, environment overrides, and
//! platform-conventional default paths — happens in the surrounding
//! program; the stages only read these plain values. An absent key
//! disables the client that needs it.

use vstd::prelude::*;

use crate::model::opt_view;

verus! {

/// The configuration the pipeline's stages read.
#[derive(Debug, PartialEq)]
pub struct Config {
    /// Enables the acoustic-fingerprint client.
    pub acoustid_api_key: Option<String>,
    /// Raises the marketplace client's rate from 1 to 4 requests per
    /// second and sets its authorization header.
    pub discogs_token: Option<String>,
    /// Enables the folksonomy client.
    pub lastfm_api_key: Option<String>,
    /// Where the catalog lives.
    pub database_path: String,
    /// Where the rules document lives.
    pub rules_path: String,
}

/// The mathematical value of a [`Config`].
#[verifier::ext_equal]
pub ghost struct ConfigVal {
    /// Enables the acoustic-fingerprint client.
    pub acoustid_api_key: Option<Seq<char>>,
    /// Raises the marketplace client's rate and sets its authorization.
    pub discogs_token: Option<Seq<char>>,
    /// Enables the folksonomy client.
    pub lastfm_api_key: Option<Seq<char>>,
    /// Where the catalog lives.
    pub database_path: Seq<char>,
    /// Where the rules document lives.
    pub rules_path: Seq<char>,
}

impl View for Config {
    type V = ConfigVal;

    open spec fn view(&self) -> ConfigVal {
        ConfigVal {
            acoustid_api_key: opt_view(self.acoustid_api_key),
            discogs_token: opt_view(self.discogs_token),
            lastfm_api_key: opt_view(self.lastfm_api_key),
            database_path: self.database_path@,
            rules_path: self.rules_path@,
        }
    }
}

impl Default for Config {
    /// A configuration with no keys and empty paths; the surrounding
    /// program fills the paths in from its conventions.
    fn default() -> (r: Config)
        ensures
            r@.acoustid_api_key is None,
            r@.discogs_token is None,
            r@.lastfm_api_key is None,
            r@.database_path.len() == 0,
            r@.rules_path.len() == 0,
    {
        Config {
            acoustid_api_key: None,
            discogs_token: None,
            lastfm_api_key: None,
            database_path: String::new(),
            rules_path: String::new(),
        }
    }
}

/// An example configuration file, ready to edit.
pub fn example_config() -> &'static str {
    "# Configuration\n\
     #\n\
     # Values are read from this file, overridden by environment\n\
     # variables with the TESS_ prefix, and finally by command-line\n\
     # flags.\n\
     \n\
     # Acoustic-fingerprint service key; enables fingerprint matching.\n\
     # acoustid_api_key = \"your-key-here\"\n\
     \n\
     # Marketplace access token; raises the rate limit from 1 to 4\n\
     # requests per second.\n\
     # discogs_token = \"your-token-here\"\n\
     \n\
     # Folksonomy service key; enables tag enrichment.\n\
     # lastfm_api_key = \"your-key-here\"\n\
     \n\
     # Where the catalog lives.\n\
     # database_path = \"/path/to/catalog.db\"\n\
     \n\
     # Where the mapping rules document lives.\n\
     # rules_path = \"/path/to/taxonomy.toml\"\n"
}

/// A minimal rules document, used when no rules file exists yet.
pub fn get_minimal_default_rules() -> &'static str {
    "# Mapping rules\n\
     #\n\
     # How raw metadata from enrichment sources is normalized into\n\
     # controlled vocabulary terms.\n\
     \n\
     [source_priority]\n\
     # Higher values win in conflict resolution\n\
     embedded_tag = 1\n\
     lastfm = 2\n\
     discogs = 3\n\
     musicbrainz = 5\n\
     wikidata = 6\n\
     lcgft = 8\n\
     user = 10\n\
     \n\
     [[genre_rules]]\n\
     name = \"classical\"\n\
     match_any = [\"classical\", \"art music\"]\n\
     output_genre = \"Classical\"\n\
     output_lcgft_label = \"Art music\"\n\
     confidence = 0.9\n\
     \n\
     [[genre_rules]]\n\
     name = \"jazz\"\n\
     match_any = [\"jazz\"]\n\
     output_genre = \"Jazz\"\n\
     output_lcgft_label = \"Jazz\"\n\
     confidence = 0.9\n\
     \n\
     [[period_rules]]\n\
     name = \"baroque\"\n\
     match_composer = [\"Bach\", \"Handel\", \"Vivaldi\"]\n\
     output_period = \"Baroque\"\n\
     year_range = [1600, 1750]\n\
     \n\
     [[instrument_rules]]\n\
     name = \"string-quartet\"\n\
     match_any = [\"string quartet\", \"2vn va vc\"]\n\
     output_instruments = [\"violin\", \"violin\", \"viola\", \"cello\"]\n"
}

} // verus!
