//! Rules-engine tests: source names, matching helpers, rule
//! application, and conflict resolution.

use tessitura::provenance::{Assertion, Source};
use tessitura::rules::{
    parse_source, rule_matches_source, rule_matches_value, source_name, source_to_str,
    str_to_source, GenreRule, InstrumentRule, MappingRules, PeriodRule,
};
use tessitura::value::FieldValue;

fn make_assertion(field: &str, value: &str, source: Source) -> Assertion {
    Assertion::new("test-entity", field, FieldValue::Text(value.to_string()), source)
}

fn make_assertion_with_confidence(
    field: &str,
    value: &str,
    source: Source,
    confidence: u32,
) -> Assertion {
    make_assertion(field, value, source).with_confidence(confidence)
}

fn sample_rules() -> MappingRules {
    MappingRules {
        source_priority: vec![
            ("embedded_tag".to_string(), 1),
            ("lastfm".to_string(), 2),
            ("discogs".to_string(), 3),
            ("musicbrainz".to_string(), 5),
            ("wikidata".to_string(), 6),
            ("lcgft".to_string(), 8),
            ("user".to_string(), 10),
        ],
        genre_rules: vec![
            GenreRule {
                name: "classical-general".to_string(),
                description: Some("Match general classical music tags".to_string()),
                match_any: vec!["classical".to_string()],
                match_source: vec![],
                output_genre: Some("Classical".to_string()),
                output_form: None,
                output_lcgft_label: None,
                confidence: 80,
            },
            GenreRule {
                name: "jazz-general".to_string(),
                description: None,
                match_any: vec!["jazz".to_string()],
                match_source: vec![],
                output_genre: Some("Jazz".to_string()),
                output_form: None,
                output_lcgft_label: None,
                confidence: 80,
            },
            GenreRule {
                name: "string-quartet-form".to_string(),
                description: None,
                match_any: vec!["string quartet".to_string()],
                match_source: vec!["musicbrainz".to_string()],
                output_genre: None,
                output_form: Some("String quartet".to_string()),
                output_lcgft_label: Some("String quartets".to_string()),
                confidence: 90,
            },
        ],
        period_rules: vec![
            PeriodRule {
                name: "baroque-composers".to_string(),
                description: None,
                match_composer: vec!["bach".to_string(), "vivaldi".to_string()],
                output_period: "Baroque".to_string(),
                year_range: Some((1600, 1750)),
            },
            PeriodRule {
                name: "classical-period".to_string(),
                description: None,
                match_composer: vec!["mozart".to_string(), "haydn".to_string()],
                output_period: "Classical".to_string(),
                year_range: Some((1750, 1820)),
            },
        ],
        instrument_rules: vec![InstrumentRule {
            name: "string-quartet-instruments".to_string(),
            description: None,
            match_any: vec!["string quartet".to_string()],
            output_instruments: vec![
                "Violin".to_string(),
                "Viola".to_string(),
                "Cello".to_string(),
            ],
            output_lcmpt_labels: vec![
                "violin".to_string(),
                "viola".to_string(),
                "violoncello".to_string(),
            ],
        }],
    }
}

#[test]
fn test_source_to_str_all_variants() {
    assert_eq!(source_to_str(Source::EmbeddedTag), "embedded_tag");
    assert_eq!(source_to_str(Source::AcoustId), "acoustid");
    assert_eq!(source_to_str(Source::MusicBrainz), "musicbrainz");
    assert_eq!(source_to_str(Source::Wikidata), "wikidata");
    assert_eq!(source_to_str(Source::LastFm), "lastfm");
    assert_eq!(source_to_str(Source::Lcgft), "lcgft");
    assert_eq!(source_to_str(Source::Lcmpt), "lcmpt");
    assert_eq!(source_to_str(Source::Discogs), "discogs");
    assert_eq!(source_to_str(Source::User), "user");
}

#[test]
fn test_str_to_source_all_variants() {
    assert_eq!(str_to_source("embedded_tag"), Some(Source::EmbeddedTag));
    assert_eq!(str_to_source("acoustid"), Some(Source::AcoustId));
    assert_eq!(str_to_source("musicbrainz"), Some(Source::MusicBrainz));
    assert_eq!(str_to_source("wikidata"), Some(Source::Wikidata));
    assert_eq!(str_to_source("lastfm"), Some(Source::LastFm));
    assert_eq!(str_to_source("lcgft"), Some(Source::Lcgft));
    assert_eq!(str_to_source("lcmpt"), Some(Source::Lcmpt));
    assert_eq!(str_to_source("discogs"), Some(Source::Discogs));
    assert_eq!(str_to_source("user"), Some(Source::User));
}

#[test]
fn test_str_to_source_case_insensitive() {
    assert_eq!(str_to_source("MUSICBRAINZ"), Some(Source::MusicBrainz));
    assert_eq!(str_to_source("MusicBrainz"), Some(Source::MusicBrainz));
}

#[test]
fn test_str_to_source_unknown() {
    assert_eq!(str_to_source("spotify"), None);
    assert_eq!(str_to_source(""), None);
}

#[test]
fn test_source_name_public_api() {
    assert_eq!(source_name(Source::MusicBrainz), "musicbrainz");
}

#[test]
fn test_parse_source_public_api() {
    assert_eq!(parse_source("musicbrainz"), Some(Source::MusicBrainz));
    assert_eq!(parse_source("unknown"), None);
}

#[test]
fn test_helper_rule_matches_source_empty_allows_all() {
    assert!(rule_matches_source(&vec![], "musicbrainz"));
    assert!(rule_matches_source(&vec![], "anything"));
}

#[test]
fn test_helper_rule_matches_source_filters() {
    let sources = vec!["musicbrainz".to_string(), "wikidata".to_string()];
    assert!(rule_matches_source(&sources, "musicbrainz"));
    assert!(rule_matches_source(&sources, "wikidata"));
    assert!(!rule_matches_source(&sources, "lastfm"));
}

#[test]
fn test_helper_rule_matches_value_empty_never_matches() {
    assert!(!rule_matches_value(&vec![], "anything"));
}

#[test]
fn test_helper_rule_matches_value_substring() {
    let patterns = vec!["classical".to_string()];
    assert!(rule_matches_value(&patterns, "20th century classical music"));
    assert!(!rule_matches_value(&patterns, "jazz"));
}

#[test]
fn test_priority_for_known_and_unknown() {
    let rules = sample_rules();
    assert_eq!(rules.priority_for("musicbrainz"), 5);
    assert_eq!(rules.priority_for("MUSICBRAINZ"), 5);
    assert_eq!(rules.priority_for("user"), 10);
    assert_eq!(rules.priority_for("spotify"), 0);
}

#[test]
fn test_genre_rule_substring_and_case() {
    let rules = sample_rules();
    let assertions = vec![make_assertion(
        "genre",
        "20th Century CLASSICAL",
        Source::MusicBrainz,
    )];
    let proposals = rules.apply_genre_rules(&assertions);
    assert!(proposals.iter().any(|p| p.value == "Classical"));
}

#[test]
fn test_genre_rule_source_filtering() {
    let rules = sample_rules();
    let from_mb = vec![make_assertion("genre", "string quartet", Source::MusicBrainz)];
    let proposals = rules.apply_genre_rules(&from_mb);
    assert!(proposals
        .iter()
        .any(|p| p.field == "form" && p.value == "String quartet"));

    let from_lastfm = vec![make_assertion("genre", "string quartet", Source::LastFm)];
    let proposals = rules.apply_genre_rules(&from_lastfm);
    assert!(!proposals
        .iter()
        .any(|p| p.field == "form" && p.value == "String quartet"));
}

#[test]
fn test_genre_rule_confidence_combination() {
    let rules = sample_rules();
    let assertions = vec![make_assertion_with_confidence(
        "genre",
        "classical",
        Source::MusicBrainz,
        90,
    )];
    let proposals = rules.apply_genre_rules(&assertions);
    let classical = proposals.iter().find(|p| p.value == "Classical").unwrap();
    // Rule confidence 80, assertion confidence 90: 72 hundredths.
    assert_eq!(classical.confidence, 72);
}

#[test]
fn test_genre_rule_deduplication_keeps_highest_priority() {
    let rules = sample_rules();
    let assertions = vec![
        make_assertion("genre", "classical", Source::LastFm),
        make_assertion("genre", "classical", Source::MusicBrainz),
    ];
    let proposals = rules.apply_genre_rules(&assertions);
    let classical: Vec<_> = proposals.iter().filter(|p| p.value == "Classical").collect();
    assert_eq!(classical.len(), 1);
    assert_eq!(classical[0].source, Source::MusicBrainz);
    assert_eq!(classical[0].alternatives.len(), 1);
    assert_eq!(classical[0].alternatives[0].source, Source::LastFm);
}

#[test]
fn test_genre_rule_irrelevant_field_ignored() {
    let rules = sample_rules();
    let assertions = vec![make_assertion("key", "C major", Source::MusicBrainz)];
    let proposals = rules.apply_genre_rules(&assertions);
    assert!(proposals.is_empty());
}

#[test]
fn test_period_rule_composer_beats_year() {
    let rules = sample_rules();
    // A composer from the later era, with a year in the earlier range:
    // the composer match wins.
    let result = rules.apply_period_rules(Some("Mozart"), Some(1700));
    assert_eq!(result.unwrap().value, "Classical");
}

#[test]
fn test_period_rule_year_boundaries_inclusive_first_wins() {
    let rules = sample_rules();
    // Both endpoints are inclusive.
    assert_eq!(rules.apply_period_rules(None, Some(1600)).unwrap().value, "Baroque");
    assert_eq!(rules.apply_period_rules(None, Some(1820)).unwrap().value, "Classical");
    // A year in two ranges goes to the rule declared first.
    assert_eq!(rules.apply_period_rules(None, Some(1750)).unwrap().value, "Baroque");
    // Outside every range, and with no composer, nothing comes back.
    assert!(rules.apply_period_rules(None, Some(1400)).is_none());
    assert!(rules.apply_period_rules(None, None).is_none());
}

#[test]
fn test_period_rule_confidences() {
    let rules = sample_rules();
    assert_eq!(rules.apply_period_rules(Some("Vivaldi"), None).unwrap().confidence, 90);
    assert_eq!(rules.apply_period_rules(None, Some(1700)).unwrap().confidence, 70);
}

#[test]
fn test_instrument_rule_outputs_and_confidence() {
    let rules = sample_rules();
    let assertions = vec![make_assertion_with_confidence(
        "instrumentation",
        "STRING QUARTET",
        Source::MusicBrainz,
        90,
    )];
    let proposals = rules.apply_instrument_rules(&assertions);
    let values: Vec<&str> = proposals.iter().map(|p| p.value.as_str()).collect();
    assert!(values.contains(&"Violin"));
    assert!(values.contains(&"Viola"));
    assert!(values.contains(&"Cello"));
    // Fixed rule confidence 80, assertion 90: 72 hundredths.
    for p in &proposals {
        assert_eq!(p.confidence, 72);
    }
}

#[test]
fn test_instrument_rule_irrelevant_field_ignored() {
    let rules = sample_rules();
    let assertions = vec![make_assertion("genre", "string quartet", Source::MusicBrainz)];
    let proposals = rules.apply_instrument_rules(&assertions);
    assert!(proposals.is_empty());
}

#[test]
fn test_rules_deterministic_repeat() {
    let rules = sample_rules();
    let assertions = vec![
        make_assertion("genre", "classical", Source::LastFm),
        make_assertion("genre", "classical", Source::MusicBrainz),
        make_assertion("tag", "jazz", Source::Discogs),
    ];
    let first = rules.apply_genre_rules(&assertions);
    let second = rules.apply_genre_rules(&assertions);
    assert_eq!(first.len(), second.len());
    for (a, b) in first.iter().zip(second.iter()) {
        assert_eq!(a.field, b.field);
        assert_eq!(a.value, b.value);
        assert_eq!(a.source, b.source);
        assert_eq!(a.confidence, b.confidence);
        assert_eq!(a.alternatives.len(), b.alternatives.len());
    }
}
