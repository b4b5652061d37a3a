//! Taxonomy-type tests.

use tessitura::taxonomy::{Form, Genre, Instrument, LcgftTerm, LcmptTerm, Period};

#[test]
fn test_form_new() {
    let form = Form::new("Sonata");
    assert_eq!(form.name, "Sonata");
    assert!(form.lcgft_uri.is_none());
}

#[test]
fn test_genre_new() {
    let genre = Genre::new("Classical");
    assert_eq!(genre.name, "Classical");
    assert!(genre.parent.is_none());
}

#[test]
fn test_genre_with_parent() {
    let genre = Genre::new("20th Century").with_parent("Classical");
    assert_eq!(genre.name, "20th Century");
    assert_eq!(genre.parent, Some("Classical".to_string()));
}

#[test]
fn test_lcgft_term_new() {
    let term = LcgftTerm::new(
        "http://id.loc.gov/authorities/genreForms/gf2014026639",
        "String quartets",
    );
    assert_eq!(term.label, "String quartets");
    assert!(term.broader_uri.is_none());
    assert!(term.scope_note.is_none());
}

#[test]
fn test_lcgft_term_with_broader() {
    let term = LcgftTerm::new(
        "http://id.loc.gov/authorities/genreForms/gf2014026639",
        "String quartets",
    )
    .with_broader("http://id.loc.gov/authorities/genreForms/gf2014026090")
    .with_scope_note("Chamber music for two violins, viola, and cello");
    assert_eq!(
        term.broader_uri,
        Some("http://id.loc.gov/authorities/genreForms/gf2014026090".to_string())
    );
    assert!(term.scope_note.is_some());
}

#[test]
fn test_instrument_new() {
    let instr = Instrument::new("Violin");
    assert_eq!(instr.name, "Violin");
    assert!(instr.abbreviation.is_none());
}

#[test]
fn test_lcmpt_term_new() {
    let term = LcmptTerm::new(
        "http://id.loc.gov/authorities/performanceMediums/mp2013015550",
        "violin",
    );
    assert_eq!(term.label, "violin");
    assert!(term.broader_uri.is_none());
}

#[test]
fn test_lcmpt_term_with_broader() {
    let term = LcmptTerm::new(
        "http://id.loc.gov/authorities/performanceMediums/mp2013015550",
        "violin",
    )
    .with_broader("http://id.loc.gov/authorities/performanceMediums/mp2013015518")
    .with_scope_note("A bowed string instrument");
    assert_eq!(
        term.broader_uri,
        Some("http://id.loc.gov/authorities/performanceMediums/mp2013015518".to_string())
    );
    assert!(term.scope_note.is_some());
}

#[test]
fn test_period_new() {
    let period = Period::new("Baroque");
    assert_eq!(period.name, "Baroque");
    assert!(period.start_year.is_none());
}

#[test]
fn test_period_with_range() {
    let period = Period::new("Baroque").with_range(1600, 1750);
    assert_eq!(period.start_year, Some(1600));
    assert_eq!(period.end_year, Some(1750));
}
