//! Catalog-store tests: round trips, uniqueness, migrations, and
//! vocabulary loading.

use tessitura::ids::ItemId;
use tessitura::migrations::{catalog_migrations, Migration};
use tessitura::model::{Artist, ArtistRole, AudioFormat, Expression, Item, Manifestation, Work};
use tessitura::provenance::{Assertion, Source};
use tessitura::store::CatalogStore;
use tessitura::taxonomy::{LcgftTerm, LcmptTerm};
use tessitura::value::FieldValue;
use tessitura::vocab::{load_lcgft, SnapshotTerm};

#[test]
fn test_open_applies_migrations() {
    let store = CatalogStore::open();
    assert_eq!(store.migrations.len(), 2);
    assert_eq!(store.migrations[0].0, 1);
    assert_eq!(store.migrations[1].0, 2);
}

#[test]
fn test_migrations_split_equivalent() {
    // Applying the whole sequence in one pass equals applying a prefix
    // first and the rest later.
    let migs = catalog_migrations();
    let mut all_at_once = CatalogStore::new();
    all_at_once.apply_migrations(&migs);

    let mut stepwise = CatalogStore::new();
    let prefix: Vec<Migration> = vec![migs[0]];
    stepwise.apply_migrations(&prefix);
    stepwise.apply_migrations(&migs);

    assert_eq!(all_at_once.migrations, stepwise.migrations);
}

#[test]
fn test_work_upsert_then_get() {
    let mut store = CatalogStore::open();
    let work = Work::new("String Quartet No. 4")
        .with_composer("Bela Bartok")
        .with_musicbrainz_id("test-mb-work-id")
        .with_catalog_number("Sz.91")
        .with_key("C major")
        .with_composed_year(1928);
    let expected = work.clone();
    store.upsert_work(work).unwrap();

    let found = store.get_work_by_musicbrainz_id("test-mb-work-id").unwrap();
    assert_eq!(found, expected);
    assert!(store.get_work_by_musicbrainz_id("missing").is_none());
}

#[test]
fn test_work_upsert_replaces_by_identity() {
    let mut store = CatalogStore::open();
    let mut work = Work::new("Original Title").with_musicbrainz_id("test-mb-upsert");
    store.insert_work(work.clone()).unwrap();
    work.title = "Updated Title".to_string();
    store.upsert_work(work).unwrap();

    let found = store.get_work_by_musicbrainz_id("test-mb-upsert").unwrap();
    assert_eq!(found.title, "Updated Title");
    assert_eq!(store.works.len(), 1);
}

#[test]
fn test_external_id_uniqueness_enforced() {
    let mut store = CatalogStore::open();
    let w1 = Work::new("First").with_musicbrainz_id("shared-id");
    let w2 = Work::new("Second").with_musicbrainz_id("shared-id");
    store.insert_work(w1).unwrap();
    let err = store.insert_work(w2);
    assert!(err.is_err());
    assert_eq!(store.works.len(), 1);
}

#[test]
fn test_expression_requires_existing_work() {
    let mut store = CatalogStore::open();
    let work = Work::new("Test Work");
    let orphan = Expression::new(work.id).with_title("No Work Yet");
    assert!(store.insert_expression(orphan).is_err());

    store.insert_work(work.clone()).unwrap();
    let expr = Expression::new(work.id).with_title("Now It Works");
    assert!(store.insert_expression(expr).is_ok());
}

#[test]
fn test_expression_round_trip_with_performers() {
    let mut store = CatalogStore::open();
    let work = Work::new("Test Work").with_musicbrainz_id("test-mb-work");
    store.insert_work(work.clone()).unwrap();
    let artist = Artist::new("Test Performer")
        .with_role(ArtistRole::Performer)
        .with_musicbrainz_id("test-mb-performer");
    store.insert_artist(artist.clone()).unwrap();

    let expr = Expression::new(work.id)
        .with_title("Test Recording")
        .with_musicbrainz_id("test-mb-recording-id")
        .with_performer(artist.id)
        .with_duration(300);
    store.insert_expression(expr).unwrap();

    let found = store
        .get_expression_by_musicbrainz_id("test-mb-recording-id")
        .unwrap();
    assert_eq!(found.title, Some("Test Recording".to_string()));
    assert_eq!(found.work_id, work.id);
    assert_eq!(found.performer_ids, vec![artist.id]);
    assert_eq!(found.duration_secs, Some(300));

    let listed = store.list_expressions();
    assert_eq!(listed.len(), 1);
    assert_eq!(listed[0].performer_ids, vec![artist.id]);
}

#[test]
fn test_artist_round_trip() {
    let mut store = CatalogStore::open();
    let artist = Artist::new("Takacs Quartet")
        .with_role(ArtistRole::Ensemble)
        .with_musicbrainz_id("test-mb-artist-id");
    store.insert_artist(artist.clone()).unwrap();

    let found = store.get_artist_by_musicbrainz_id("test-mb-artist-id").unwrap();
    assert_eq!(found.name, "Takacs Quartet");
    assert_eq!(found.roles, vec![ArtistRole::Ensemble]);
}

#[test]
fn test_manifestation_round_trip() {
    let mut store = CatalogStore::open();
    let man = Manifestation::new("String Quartets 1-6")
        .with_musicbrainz_id("test-mb-release-id")
        .with_label("Decca")
        .with_release_year(1998);
    store.insert_manifestation(man.clone()).unwrap();

    let found = store
        .get_manifestation_by_musicbrainz_id("test-mb-release-id")
        .unwrap();
    assert_eq!(found.title, "String Quartets 1-6");
    assert_eq!(found.label, Some("Decca".to_string()));
    assert_eq!(found.release_year, Some(1998));
}

#[test]
fn test_item_lists_partition_by_identification() {
    let mut store = CatalogStore::open();
    let work = Work::new("Test Work");
    store.insert_work(work.clone()).unwrap();
    let expr = Expression::new(work.id).with_title("Test Recording");
    let expr_id = expr.id;
    store.insert_expression(expr).unwrap();

    let item1 = Item::new("/music/unidentified.flac", AudioFormat::Flac, 1024, 0);
    store.insert_item(item1.clone()).unwrap();
    let mut item2 = Item::new("/music/identified.flac", AudioFormat::Flac, 2048, 0);
    item2.expression_id = Some(expr_id);
    store.insert_item(item2.clone()).unwrap();

    assert_eq!(store.list_all_items().len(), 2);
    let identified = store.list_identified_items();
    assert_eq!(identified.len(), 1);
    assert_eq!(identified[0].id, item2.id);
    let unidentified = store.list_unidentified_items();
    assert_eq!(unidentified.len(), 1);
    assert_eq!(unidentified[0].id, item1.id);

    let by_path = store.get_item_by_path("/music/identified.flac").unwrap();
    assert_eq!(by_path.id, item2.id);
    assert!(store.get_item_by_id(ItemId::new()).is_none());
}

#[test]
fn test_item_listings_sorted_by_path() {
    let mut store = CatalogStore::open();
    for path in ["/music/c.flac", "/music/a.flac", "/music/b.flac"] {
        let item = Item::new(path, AudioFormat::Flac, 1, 0);
        store.insert_item(item).unwrap();
    }
    let paths: Vec<String> = store.list_all_items().iter().map(|i| i.file_path.clone()).collect();
    assert_eq!(paths, vec!["/music/a.flac", "/music/b.flac", "/music/c.flac"]);
    let unid: Vec<String> = store
        .list_unidentified_items()
        .iter()
        .map(|i| i.file_path.clone())
        .collect();
    assert_eq!(unid, vec!["/music/a.flac", "/music/b.flac", "/music/c.flac"]);
}

#[test]
fn test_expressions_listed_sorted_by_title() {
    let mut store = CatalogStore::open();
    let work = Work::new("Test Work");
    store.insert_work(work.clone()).unwrap();
    for title in ["Gigue", "Allemande", "Courante"] {
        let expr = Expression::new(work.id).with_title(title);
        store.insert_expression(expr).unwrap();
    }
    let untitled = Expression::new(work.id);
    store.insert_expression(untitled).unwrap();
    let titles: Vec<Option<String>> =
        store.list_expressions().iter().map(|e| e.title.clone()).collect();
    assert_eq!(
        titles,
        vec![
            None,
            Some("Allemande".to_string()),
            Some("Courante".to_string()),
            Some("Gigue".to_string()),
        ]
    );
}

#[test]
fn test_item_path_uniqueness() {
    let mut store = CatalogStore::open();
    let item1 = Item::new("/music/same.flac", AudioFormat::Flac, 1, 0);
    let item2 = Item::new("/music/same.flac", AudioFormat::Flac, 2, 0);
    store.insert_item(item1).unwrap();
    assert!(store.insert_item(item2).is_err());
}

#[test]
fn test_assertion_insert_then_list_contains_it() {
    let mut store = CatalogStore::open();
    let assertion = Assertion::new(
        "entity-123",
        "genre",
        FieldValue::Text("Classical".to_string()),
        Source::MusicBrainz,
    )
    .with_confidence(95);
    store.insert_assertion(&assertion).unwrap();

    let listed = store.get_assertions_for_entity("entity-123");
    assert_eq!(listed.len(), 1);
    assert_eq!(listed[0], assertion);
    assert!(store.get_assertions_for_entity("other").is_empty());
}

#[test]
fn test_assertion_timestamps_monotone_and_newest_first() {
    let mut store = CatalogStore::open();
    let mut early = Assertion::new(
        "e",
        "genre",
        FieldValue::Text("a".to_string()),
        Source::LastFm,
    );
    early.fetched_at = 100;
    let mut late = Assertion::new(
        "e",
        "genre",
        FieldValue::Text("b".to_string()),
        Source::LastFm,
    );
    late.fetched_at = 200;
    let mut backdated = Assertion::new(
        "e",
        "genre",
        FieldValue::Text("c".to_string()),
        Source::LastFm,
    );
    backdated.fetched_at = 50;

    store.insert_assertion(&early).unwrap();
    store.insert_assertion(&late).unwrap();
    // A back-dated assertion is raised to the newest stored timestamp,
    // keeping the log monotone.
    store.insert_assertion(&backdated).unwrap();

    assert_eq!(store.assertions[0].fetched_at, 100);
    assert_eq!(store.assertions[1].fetched_at, 200);
    assert_eq!(store.assertions[2].fetched_at, 200);

    // Newest first: the back-dated one was stored last, so it leads.
    let listed = store.get_assertions_for_entity("e");
    assert_eq!(listed.len(), 3);
    assert_eq!(listed[0].value, FieldValue::Text("c".to_string()));
    assert_eq!(listed[2].value, FieldValue::Text("a".to_string()));
}

#[test]
fn test_lcgft_round_trip_and_case_insensitive_label() {
    let mut store = CatalogStore::open();
    let term = LcgftTerm::new("http://example.com/gf1", "Art music");
    store.insert_lcgft_term(&term).unwrap();

    let found = store.get_lcgft_by_label("art music").unwrap();
    assert_eq!(found.label, "Art music");
    assert_eq!(store.count_lcgft_terms(), 1);
}

#[test]
fn test_lcgft_narrower_ordered_by_label() {
    let mut store = CatalogStore::open();
    let parent = LcgftTerm::new("http://example.com/gf-parent", "Chamber music");
    let child1 = LcgftTerm::new("http://example.com/gf-child1", "String quartets")
        .with_broader("http://example.com/gf-parent");
    let child2 = LcgftTerm::new("http://example.com/gf-child2", "Piano trios")
        .with_broader("http://example.com/gf-parent");
    store.insert_lcgft_term(&parent).unwrap();
    store.insert_lcgft_term(&child1).unwrap();
    store.insert_lcgft_term(&child2).unwrap();

    let narrower = store.get_lcgft_narrower("http://example.com/gf-parent");
    assert_eq!(narrower.len(), 2);
    assert_eq!(narrower[0].label, "Piano trios");
    assert_eq!(narrower[1].label, "String quartets");
}

#[test]
fn test_lcmpt_round_trip() {
    let mut store = CatalogStore::open();
    let term = LcmptTerm::new("http://example.com/mp1", "violin")
        .with_scope_note("A bowed string instrument");
    store.insert_lcmpt_term(&term).unwrap();
    let found = store.get_lcmpt_by_label("VIOLIN").unwrap();
    assert_eq!(found.uri, "http://example.com/mp1");
    assert_eq!(store.count_lcmpt_terms(), 1);
}

fn snapshot() -> Vec<SnapshotTerm> {
    vec![
        SnapshotTerm {
            uri: "http://example.com/parent".to_string(),
            label: "Chamber music".to_string(),
            broader_uri: None,
            scope_note: None,
        },
        SnapshotTerm {
            uri: "http://example.com/child".to_string(),
            label: "String quartets".to_string(),
            broader_uri: Some("http://example.com/parent".to_string()),
            scope_note: Some("For two violins, viola, and cello".to_string()),
        },
    ]
}

#[test]
fn test_vocab_load_idempotent() {
    let mut store = CatalogStore::open();
    let count = load_lcgft(&mut store, &snapshot()).unwrap();
    assert_eq!(count, 2);
    let first_terms = store.lcgft_terms.clone();
    let first_count = store.count_lcgft_terms();

    let count2 = load_lcgft(&mut store, &snapshot()).unwrap();
    assert_eq!(count2, 2);
    assert_eq!(store.count_lcgft_terms(), first_count);
    assert_eq!(store.lcgft_terms, first_terms);

    // Parents were inserted before children: the parent holds index 0.
    assert_eq!(store.lcgft_terms[0].uri, "http://example.com/parent");
    assert_eq!(
        store.lcgft_terms[1].broader_uri,
        Some("http://example.com/parent".to_string())
    );
}
