//! Pipeline-level tests: stage decisions, identification scenarios,
//! enrichment, harmonization, workflow advancement, and rate limiting.

use tessitura::acoustid::{
    choose_recording_from_lookup, AcoustIdRecording, AcoustIdResponse, AcoustIdResult,
};
use tessitura::config::Config;
use tessitura::enrich::{enabled_sources, recording_assertions, release_assertions, work_assertions};
use tessitura::error::EnrichError;
use tessitura::fingerprint::{
    apply_fingerprint_result, encode_fingerprint, fingerprint_targets, should_fingerprint,
};
use tessitura::harmonize::harmonize_assertions;
use tessitura::identify::{materialize_recording, plan_search_queries, strip_title_suffix};
use tessitura::lastfm::{tags_to_assertions, LastFmTag, MIN_TAG_COUNT};
use tessitura::model::{AudioFormat, Item};
use tessitura::musicbrainz::{
    MbArtist, MbArtistCredit, MbLabel, MbLabelInfo, MbRecording, MbRelation, MbRelease,
    MbReleaseDetail, MbWork, MbWorkDetail, MbWorkRelation,
};
use tessitura::pipeline::{
    build_full_pipeline, should_run_fingerprint, should_run_identify, should_run_scan,
};
use tessitura::provenance::{Assertion, Source};
use tessitura::ratelimit::RateLimiter;
use tessitura::rules::{GenreRule, MappingRules};
use tessitura::scan::{record_scanned_file, TagData};
use tessitura::store::CatalogStore;
use tessitura::value::{FieldScalar, FieldValue};
use tessitura::wikidata::{
    qid_from_binding, WikidataClaim, WikidataDataValue, WikidataEntity, WikidataEntityRef,
    WikidataSnak,
};
use tessitura::workflow::{
    all_subtasks_complete, lookup_status, pending_subtasks, record_status, reconcile_running,
    StageStatus, WorkflowDef,
};

fn so_what_tags() -> TagData {
    TagData {
        title: Some("So What".to_string()),
        artist: Some("Miles Davis".to_string()),
        album: Some("Kind of Blue".to_string()),
        album_artist: None,
        track_number: Some(1),
        disc_number: None,
        year: Some(1959),
        genre: Some("Jazz".to_string()),
        duration_secs: Some(565),
    }
}

fn so_what_recording() -> MbRecording {
    MbRecording {
        id: "R1".to_string(),
        title: "So What".to_string(),
        artist_credit: Some(vec![MbArtistCredit {
            artist: MbArtist {
                id: "A1".to_string(),
                name: "Miles Davis".to_string(),
            },
        }]),
        releases: Some(vec![MbRelease {
            id: "REL1".to_string(),
            title: "Kind of Blue".to_string(),
            release_group: None,
        }]),
        relations: vec![MbRelation {
            relation_type: "performance".to_string(),
            work: Some(MbWork {
                id: "W1".to_string(),
                title: "So What".to_string(),
            }),
        }],
    }
}

#[test]
fn test_scan_then_fingerprint_empty_directory() {
    // An empty directory scans to zero items, and fingerprinting then
    // has nothing to read.
    let store = CatalogStore::open();
    assert_eq!(store.list_all_items().len(), 0);
    assert!(should_run_scan(&store));
    let targets = fingerprint_targets(&store, false);
    assert!(targets.is_empty());
}

#[test]
fn test_zero_byte_file_skipped() {
    // A zero-byte file still becomes an item, but fingerprinting skips
    // it and identification has nothing to go on.
    let mut store = CatalogStore::open();
    let empty_tags = TagData::empty();
    record_scanned_file(&mut store, "/music/ghost.mp3", 0, 0, &empty_tags).unwrap();
    assert_eq!(store.list_all_items().len(), 1);
    let item = store.get_item_by_path("/music/ghost.mp3").unwrap();
    assert!(!should_fingerprint(&item));
    assert!(plan_search_queries(&item).is_empty());
}

#[test]
fn test_fingerprint_identification_of_tagged_file() {
    let mut store = CatalogStore::open();
    let id = record_scanned_file(&mut store, "/music/so_what.mp3", 9000, 0, &so_what_tags())
        .unwrap();
    let item = store.get_item_by_id(id).unwrap();
    assert!(should_fingerprint(&item));
    apply_fingerprint_result(&mut store, &item, "FPDATA", 565, false).unwrap();
    let item = store.get_item_by_id(id).unwrap();
    assert_eq!(item.fingerprint.as_deref(), Some("FPDATA"));

    // The lookup returns a recording with external id R1.
    let response = AcoustIdResponse {
        status: "ok".to_string(),
        results: vec![AcoustIdResult {
            id: "res-1".to_string(),
            score: 95,
            recordings: Some(vec![AcoustIdRecording {
                id: "R1".to_string(),
                title: Some("So What".to_string()),
                artists: None,
                releases: None,
            }]),
        }],
    };
    assert_eq!(choose_recording_from_lookup(&response).as_deref(), Some("R1"));

    let (expr_id, man_id) = materialize_recording(&mut store, &item, &so_what_recording(), None)
        .unwrap();
    assert!(man_id.is_some());
    let identified = store.list_identified_items();
    assert_eq!(identified.len(), 1);
    assert_eq!(identified[0].expression_id, Some(expr_id));
    let expr = store.get_expression_by_musicbrainz_id("R1").unwrap();
    assert_eq!(expr.id, expr_id);
    assert!(store.get_work_by_musicbrainz_id("W1").is_some());
    assert!(store.get_manifestation_by_musicbrainz_id("REL1").is_some());
    assert!(store.get_artist_by_musicbrainz_id("A1").is_some());
    assert!(!should_run_identify(&store));
}

#[test]
fn test_metadata_fallback_identification() {
    // Same item, but the fingerprint lookup came back empty: the search
    // plan tries title plus album first, and the first candidate wins.
    let mut store = CatalogStore::open();
    let id = record_scanned_file(&mut store, "/music/so_what.mp3", 9000, 0, &so_what_tags())
        .unwrap();
    let item = store.get_item_by_id(id).unwrap();

    let empty = AcoustIdResponse {
        status: "ok".to_string(),
        results: vec![],
    };
    assert!(choose_recording_from_lookup(&empty).is_none());

    let queries = plan_search_queries(&item);
    assert_eq!(queries.len(), 3);
    assert_eq!(queries[0].title, "So What");
    assert_eq!(queries[0].album.as_deref(), Some("Kind of Blue"));
    assert_eq!(queries[2].album, None);

    materialize_recording(&mut store, &item, &so_what_recording(), None).unwrap();
    assert_eq!(store.list_identified_items().len(), 1);
}

#[test]
fn test_enrichment_fan_out_with_one_source_failing() {
    // The folksonomy source failed and the encyclopedic one found no
    // entity; only the bibliographic assertions land, and the stage
    // still completes.
    let mut store = CatalogStore::open();
    let entity = "item-1";

    let failure = EnrichError::Http {
        source_name: "folksonomy".to_string(),
        message: "server error".to_string(),
    };
    assert!(failure.is_transient());
    assert!(!failure.is_not_found());

    let from_recording = recording_assertions(entity, &so_what_recording());
    for a in &from_recording {
        store.insert_assertion(a).unwrap();
    }
    let listed = store.get_assertions_for_entity(entity);
    assert!(!listed.is_empty());
    assert!(listed.iter().all(|a| a.source == Source::MusicBrainz));
}

#[test]
fn test_work_and_release_assertions() {
    let work = MbWorkDetail {
        id: "W1".to_string(),
        title: "So What".to_string(),
        relations: vec![MbWorkRelation {
            relation_type: "composer".to_string(),
            artist: Some(MbArtist {
                id: "A9".to_string(),
                name: "Miles Davis".to_string(),
            }),
            attributes: vec![],
        }],
        attributes: vec!["D minor".to_string()],
    };
    let rows = work_assertions("e", &work);
    assert_eq!(rows[0].field, "work_title");
    assert_eq!(rows[1].field, "work_musicbrainz_id");
    assert!(rows.iter().any(|a| a.field == "key"
        && a.value == FieldValue::Text("D minor".to_string())
        && a.confidence == Some(90)));
    assert!(rows.iter().any(|a| a.field == "composer" && a.confidence == Some(95)));

    let release = MbReleaseDetail {
        id: "REL1".to_string(),
        title: "Kind of Blue".to_string(),
        date: Some("1959-08-17".to_string()),
        label_info: vec![MbLabelInfo {
            catalog_number: Some("CL 1355".to_string()),
            label: Some(MbLabel {
                id: "L1".to_string(),
                name: "Columbia".to_string(),
            }),
        }],
        media: vec![],
    };
    let rows = release_assertions("e", &release);
    assert!(rows.iter().any(|a| a.field == "release_year"
        && a.value == FieldValue::Int(1959)
        && a.confidence == Some(95)));
    assert!(rows.iter().any(|a| a.field == "catalog_number"
        && a.value == FieldValue::Text("CL 1355".to_string())));
    assert!(rows.iter().any(|a| a.field == "label"));
}

#[test]
fn test_wikidata_entity_reads() {
    let entity = WikidataEntity {
        id: "Q1".to_string(),
        claims: vec![
            (
                "P826".to_string(),
                vec![WikidataClaim {
                    mainsnak: WikidataSnak {
                        datavalue: Some(WikidataDataValue::EntityId(WikidataEntityRef {
                            id: "Q189524".to_string(),
                        })),
                    },
                }],
            ),
            (
                "P528".to_string(),
                vec![
                    WikidataClaim {
                        mainsnak: WikidataSnak {
                            datavalue: Some(WikidataDataValue::StringValue("Sz.91".to_string())),
                        },
                    },
                    WikidataClaim {
                        mainsnak: WikidataSnak { datavalue: None },
                    },
                ],
            ),
        ],
    };
    assert_eq!(entity.get_entity_refs("P826"), vec!["Q189524".to_string()]);
    assert_eq!(entity.get_string_values("P528"), vec!["Sz.91".to_string()]);
    assert!(entity.get_entity_refs("P999").is_empty());
    assert_eq!(
        qid_from_binding("http://www.wikidata.org/entity/Q123456"),
        "Q123456"
    );
}

#[test]
fn test_folksonomy_threshold_and_confidence() {
    // A tag with a count below the threshold never becomes an
    // assertion; surviving confidences are relative to the largest
    // count.
    let tags = vec![
        LastFmTag {
            name: "classical".to_string(),
            count: 100,
        },
        LastFmTag {
            name: "piano".to_string(),
            count: 50,
        },
        LastFmTag {
            name: "noise".to_string(),
            count: 3,
        },
    ];
    let assertions = tags_to_assertions(&tags, "entity-1", "track", MIN_TAG_COUNT);
    assert_eq!(assertions.len(), 2);
    assert_eq!(assertions[0].field, "tag");
    assert_eq!(assertions[0].source, Source::LastFm);
    assert_eq!(assertions[0].confidence, Some(100));
    assert_eq!(assertions[1].confidence, Some(50));
    for a in &assertions {
        match &a.value {
            FieldValue::Record(entries) => {
                assert!(entries
                    .iter()
                    .all(|(k, v)| k != "name" || *v != FieldScalar::Text("noise".to_string())));
            }
            other => panic!("unexpected value shape: {:?}", other),
        }
    }
}

#[test]
fn test_lastfm_tag_clone() {
    let tag = LastFmTag {
        name: "jazz".to_string(),
        count: 42,
    };
    let cloned = tag.clone();
    assert_eq!(cloned.name, "jazz");
    assert_eq!(cloned.count, 42);
}

#[test]
fn test_harmonization_with_conflict() {
    // Two sources propose the same canonical genre; the declared
    // priorities pick the winner and keep the loser as an alternative.
    let rules = MappingRules {
        source_priority: vec![
            ("musicbrainz".to_string(), 5),
            ("lastfm".to_string(), 2),
        ],
        genre_rules: vec![GenreRule {
            name: "classical".to_string(),
            description: None,
            match_any: vec!["classical".to_string()],
            match_source: vec![],
            output_genre: Some("Classical".to_string()),
            output_form: None,
            output_lcgft_label: None,
            confidence: 80,
        }],
        period_rules: vec![],
        instrument_rules: vec![],
    };
    let assertions = vec![
        Assertion::new(
            "item",
            "genre",
            FieldValue::Text("classical".to_string()),
            Source::MusicBrainz,
        )
        .with_confidence(90),
        Assertion::new(
            "item",
            "genre",
            FieldValue::Text("classical music".to_string()),
            Source::LastFm,
        )
        .with_confidence(80),
    ];
    let (proposals, outcome) = harmonize_assertions(&rules, &assertions);
    assert_eq!(proposals.len(), 1);
    let p = &proposals[0];
    assert_eq!(p.field, "genre");
    assert_eq!(p.value, "Classical");
    assert_eq!(p.source, Source::MusicBrainz);
    assert_eq!(p.confidence, 72);
    assert_eq!(p.alternatives.len(), 1);
    assert_eq!(p.alternatives[0].source, Source::LastFm);
    assert_eq!(p.alternatives[0].confidence, 64);
    assert!(matches!(
        outcome,
        tessitura::workflow::StageOutcome::NeedsReview
    ));

    let (none, outcome2) = harmonize_assertions(&rules, &vec![]);
    assert!(none.is_empty());
    assert!(matches!(outcome2, tessitura::workflow::StageOutcome::Complete));
}

#[test]
fn test_resume_after_mid_stage_crash() {
    // Identification finished; an enrich subtask finished; the process
    // died mid-enrich. On resumption the finished stages are skipped,
    // the finished subtask is skipped, and the rest run.
    let def = build_full_pipeline().unwrap();
    let mut states = Vec::new();
    record_status(&mut states, "scan", None, StageStatus::Complete, None, 1);
    record_status(&mut states, "identify", None, StageStatus::Complete, None, 2);
    record_status(&mut states, "enrich", None, StageStatus::Running, None, 3);
    record_status(
        &mut states,
        "enrich",
        Some("lastfm"),
        StageStatus::Complete,
        None,
        3,
    );

    reconcile_running(&mut states);
    assert_eq!(lookup_status(&states, "enrich", None), StageStatus::Pending);
    assert_eq!(lookup_status(&states, "scan", None), StageStatus::Complete);

    let ready = def.ready_stages(&states);
    assert_eq!(ready, vec!["enrich".to_string()]);

    let subtasks = vec![
        "musicbrainz".to_string(),
        "wikidata".to_string(),
        "lastfm".to_string(),
        "discogs".to_string(),
    ];
    let pending = pending_subtasks(&states, "enrich", &subtasks);
    assert_eq!(
        pending,
        vec![
            "musicbrainz".to_string(),
            "wikidata".to_string(),
            "discogs".to_string()
        ]
    );

    for sub in &pending {
        record_status(&mut states, "enrich", Some(sub.as_str()), StageStatus::Complete, None, 4);
    }
    assert!(all_subtasks_complete(&states, "enrich", &subtasks));
    record_status(&mut states, "enrich", None, StageStatus::Complete, None, 5);

    let ready = def.ready_stages(&states);
    assert_eq!(ready, vec!["harmonize".to_string()]);
}

#[test]
fn test_workflow_rejects_cycles() {
    let stages = vec!["a".to_string(), "b".to_string()];
    let deps = vec![
        ("a".to_string(), "b".to_string()),
        ("b".to_string(), "a".to_string()),
    ];
    assert!(WorkflowDef::build(stages, deps).is_err());
}

#[test]
fn test_rate_limit_lower_bound() {
    // Five requests per second means a 200 ms gap; across any window of
    // requests the elapsed time is at least (count - 1) gaps.
    let mut limiter = RateLimiter::new(5);
    assert_eq!(limiter.interval_ms, 200);
    let mut grants = Vec::new();
    let mut now: u64 = 0;
    for _ in 0..4 {
        let g = limiter.acquire_at(now);
        grants.push(g);
        now = g + 10;
    }
    for w in grants.windows(2) {
        assert!(w[1] - w[0] >= 200);
    }
    assert!(grants[3] - grants[0] >= 3 * 200);
}

#[test]
fn test_rate_limit_grant_times_exact() {
    // The first request proceeds at once; a later one waits out the
    // interval only when it arrives early.
    let mut limiter = RateLimiter::new(5);
    assert_eq!(limiter.acquire_at(1_000), 1_000);
    assert_eq!(limiter.acquire_at(1_050), 1_200);
    assert_eq!(limiter.acquire_at(1_700), 1_700);
}

#[test]
fn test_enabled_sources_follow_configuration() {
    let mut config = Config::default();
    let sources = enabled_sources(&config);
    assert_eq!(sources, vec!["musicbrainz", "wikidata", "discogs"]);
    config.lastfm_api_key = Some("key".to_string());
    let sources = enabled_sources(&config);
    assert_eq!(sources, vec!["musicbrainz", "wikidata", "lastfm", "discogs"]);
}

#[test]
fn test_encode_fingerprint_round_trips() {
    let words: Vec<u32> = vec![1, 2, 3, 0x0a0b0c0d, u32::MAX];
    let encoded = encode_fingerprint(&words).unwrap();
    // Decode with the same outside crates to confirm the encoding is
    // base64 over the deflate stream of the little-endian bytes.
    let compressed =
        base64::Engine::decode(&base64::engine::general_purpose::STANDARD, &encoded).unwrap();
    let mut decoder = flate2::read::ZlibDecoder::new(compressed.as_slice());
    let mut bytes = Vec::new();
    std::io::Read::read_to_end(&mut decoder, &mut bytes).unwrap();
    let mut expected = Vec::new();
    for w in &words {
        expected.extend_from_slice(&w.to_le_bytes());
    }
    assert_eq!(bytes, expected);
    assert_ne!(encoded.as_bytes(), expected.as_slice());
}

#[test]
fn test_title_cleaning_boundaries() {
    assert_eq!(strip_title_suffix("Dixie Chicken (2006 Remaster)"), "Dixie Chicken");
    assert_eq!(strip_title_suffix("Alive (Live)"), "Alive (Live)");
    assert_eq!(strip_title_suffix("Snowball (24-bit Studio Master)"), "Snowball");
}

#[test]
fn test_should_run_flags() {
    let mut store = CatalogStore::open();
    assert!(should_run_scan(&store));
    assert!(!should_run_fingerprint(&store));
    assert!(!should_run_identify(&store));
    record_scanned_file(&mut store, "/m/a.flac", 10, 0, &TagData::empty()).unwrap();
    assert!(!should_run_scan(&store));
    assert!(should_run_fingerprint(&store));
    assert!(should_run_identify(&store));
}

#[test]
fn test_errors_carry_their_kinds() {
    let nf = EnrichError::NotFound {
        entity: "Q1".to_string(),
        source_name: "encyclopedic".to_string(),
    };
    assert!(nf.is_not_found());
    assert!(!nf.is_transient());
    let rl = EnrichError::RateLimited {
        source_name: "bibliographic".to_string(),
    };
    assert!(rl.is_transient());

    let mut store = CatalogStore::open();
    let item = Item::new("/m/x.flac", AudioFormat::Flac, 1, 0);
    store.insert_item(item.clone()).unwrap();
    let dup = Item::new("/m/x.flac", AudioFormat::Flac, 1, 0);
    let err = store.insert_item(dup).unwrap_err();
    assert!(matches!(err, tessitura::error::Error::Database(_)));
}
