//! The marketplace enricher: release-level metadata.
//!
//! The surrounding program searches by catalog number and fetches the
//! chosen release; this module picks the candidate and turns a release
//! into assertions.

use vstd::prelude::*;

use crate::enrich::{record_row, rows_view, text_row, AssertRow};
use crate::provenance::{Assertion, Source};
use crate::value::{FieldScalar, FieldValue, ScalarVal, Val};

verus! {

/// A search hit for a release.
#[derive(Debug, PartialEq)]
pub struct DiscogsSearchResult {
    /// The marketplace release identifier.
    pub id: u64,
    /// The combined artist-and-title line.
    pub title: String,
    /// The release year, as written, when given.
    pub year: Option<String>,
    /// Label names.
    pub label: Vec<String>,
    /// The catalog number, when given.
    pub catno: Option<String>,
}

/// A record label entry on a release.
#[derive(Debug, PartialEq)]
pub struct DiscogsLabel {
    /// The marketplace label identifier, when given.
    pub id: Option<u64>,
    /// The label's name.
    pub name: String,
    /// The label's catalog number for the release, when given.
    pub catno: Option<String>,
}

/// A format entry describing the medium.
#[derive(Debug, PartialEq)]
pub struct DiscogsFormat {
    /// The format's name.
    pub name: String,
    /// Additional descriptions.
    pub descriptions: Vec<String>,
}

/// A non-primary artist credit.
#[derive(Debug, PartialEq)]
pub struct DiscogsExtraArtist {
    /// The artist's name.
    pub name: String,
    /// The credited role.
    pub role: String,
}

/// Full release details.
#[derive(Debug, PartialEq)]
pub struct DiscogsRelease {
    /// The marketplace release identifier.
    pub id: u64,
    /// The release title.
    pub title: String,
    /// The release year, when given.
    pub year: Option<u32>,
    /// Labels on the release.
    pub labels: Vec<DiscogsLabel>,
    /// High-level genre names.
    pub genres: Vec<String>,
    /// Sub-genre style names.
    pub styles: Vec<String>,
    /// Format entries.
    pub formats: Vec<DiscogsFormat>,
    /// Non-primary artist credits.
    pub extraartists: Vec<DiscogsExtraArtist>,
}

/// The release identifier enrichment takes from a search: the first
/// hit's.
pub fn choose_search_result(results: &Vec<DiscogsSearchResult>) -> (r: Option<u64>)
    ensures
        match r {
            Some(id) => results@.len() > 0 && id == results@[0].id,
            None => results@.len() == 0,
        },
{
    if results.len() > 0 {
        Some(results[0].id)
    } else {
        None
    }
}

/// The label rows of a release: per label, a name-and-identifier record
/// at confidence 90, then its catalog number at confidence 90 when
/// given.
pub open spec fn discogs_label_rows(entity: Seq<char>, labels: Seq<DiscogsLabel>) -> Seq<AssertRow>
    decreases labels.len(),
{
    if labels.len() == 0 {
        Seq::empty()
    } else {
        seq![
            record_row(
                entity,
                "label"@,
                seq![
                    ("name"@, ScalarVal::Text(labels[0].name@)),
                    (
                        "discogs_id"@,
                        match labels[0].id {
                            Some(i) => ScalarVal::Int(i as i64 as int),
                            None => ScalarVal::Null,
                        },
                    ),
                ],
                Some(90),
                Source::Discogs,
            ),
        ] + (match labels[0].catno {
            Some(c) => seq![text_row(entity, "catalog_number"@, c@, Some(90), Source::Discogs)],
            None => Seq::empty(),
        }) + discogs_label_rows(entity, labels.drop_first())
    }
}

/// One text row per entry, all with one field and confidence.
pub open spec fn text_rows(
    entity: Seq<char>,
    field: Seq<char>,
    values: Seq<String>,
    confidence: Option<int>,
) -> Seq<AssertRow> {
    Seq::new(values.len(), |i: int| text_row(entity, field, values[i]@, confidence, Source::Discogs))
}

/// The format rows: per format entry, a record of its name and its
/// descriptions, with no confidence.
pub open spec fn format_rows(entity: Seq<char>, formats: Seq<DiscogsFormat>) -> Seq<AssertRow> {
    Seq::new(
        formats.len(),
        |i: int| record_row(
            entity,
            "format"@,
            seq![
                ("name"@, ScalarVal::Text(formats[i].name@)),
                (
                    "descriptions"@,
                    ScalarVal::TextList(
                        Seq::new(
                            formats[i].descriptions@.len(),
                            |k: int| formats[i].descriptions@[k]@,
                        ),
                    ),
                ),
            ],
            None,
            Source::Discogs,
        ),
    )
}

/// The personnel rows: per extra artist, a record of name and role at
/// confidence 85.
pub open spec fn personnel_rows(entity: Seq<char>, artists: Seq<DiscogsExtraArtist>) -> Seq<
    AssertRow,
> {
    Seq::new(
        artists.len(),
        |i: int| record_row(
            entity,
            "personnel"@,
            seq![
                ("name"@, ScalarVal::Text(artists[i].name@)),
                ("role"@, ScalarVal::Text(artists[i].role@)),
            ],
            Some(85),
            Source::Discogs,
        ),
    )
}

/// The rows the marketplace enricher derives from a release: labels and
/// catalog numbers, the release year at confidence 90, a genre row per
/// genre and a style row per style at confidence 80, a format record
/// per format, and a personnel record per extra artist.
pub open spec fn discogs_release_rows(entity: Seq<char>, rel: DiscogsRelease) -> Seq<AssertRow> {
    discogs_label_rows(entity, rel.labels@) + (match rel.year {
        Some(y) => seq![
            AssertRow {
                entity,
                field: "release_year"@,
                value: Val::Int(y as int),
                confidence: Some(90),
                source: Source::Discogs,
            },
        ],
        None => Seq::empty(),
    }) + text_rows(entity, "genre"@, rel.genres@, Some(80)) + text_rows(
        entity,
        "style"@,
        rel.styles@,
        Some(80),
    ) + format_rows(entity, rel.formats@) + personnel_rows(entity, rel.extraartists@)
}

/// Append one text row per value.
fn push_text_rows(
    out: &mut Vec<Assertion>,
    entity_id: &str,
    field: &str,
    values: &Vec<String>,
    confidence: u32,
)
    requires
        confidence <= 100,
    ensures
        rows_view(final(out)@) == rows_view(old(out)@) + text_rows(
            entity_id@,
            field@,
            values@,
            Some(confidence as int),
        ),
{
    let mut i: usize = 0;
    proof {
        assert(rows_view(out@) =~~= rows_view(old(out)@) + text_rows(
            entity_id@,
            field@,
            values@.subrange(0, 0),
            Some(confidence as int),
        ));
    }
    while i < values.len()
        invariant
            confidence <= 100,
            i <= values@.len(),
            rows_view(out@) =~~= rows_view(old(out)@) + text_rows(
                entity_id@,
                field@,
                values@.subrange(0, i as int),
                Some(confidence as int),
            ),
        decreases values@.len() - i,
    {
        let ghost before = rows_view(out@);
        out.push(
            Assertion::new(
                entity_id,
                field,
                FieldValue::Text(values[i].clone()),
                Source::Discogs,
            ).with_confidence(confidence),
        );
        proof {
            assert(rows_view(out@) =~~= before.push(
                text_row(
                    entity_id@,
                    field@,
                    values@[i as int]@,
                    Some(confidence as int),
                    Source::Discogs,
                ),
            ));
            assert(rows_view(out@) =~~= rows_view(old(out)@) + text_rows(
                entity_id@,
                field@,
                values@.subrange(0, i + 1),
                Some(confidence as int),
            ));
        }
        i += 1;
    }
    proof {
        assert(values@.subrange(0, values@.len() as int) =~= values@);
    }
}

/// The assertions the marketplace enricher derives from a release.
pub fn discogs_release_assertions(entity_id: &str, rel: &DiscogsRelease) -> (r: Vec<Assertion>)
    ensures
        rows_view(r@) == discogs_release_rows(entity_id@, *rel),
{
    let mut r: Vec<Assertion> = Vec::new();
    proof {
        assert(rel.labels@.subrange(0, rel.labels@.len() as int) =~= rel.labels@);
        assert(rows_view(r@) =~~= Seq::<AssertRow>::empty());
    }
    let mut i: usize = 0;
    while i < rel.labels.len()
        invariant
            i <= rel.labels@.len(),
            discogs_label_rows(entity_id@, rel.labels@) =~~= rows_view(r@) + discogs_label_rows(
                entity_id@,
                rel.labels@.subrange(i as int, rel.labels@.len() as int),
            ),
        decreases rel.labels@.len() - i,
    {
        let ghost tail = rel.labels@.subrange(i as int, rel.labels@.len() as int);
        proof {
            assert(tail[0] == rel.labels@[i as int]);
            assert(tail.drop_first() =~= rel.labels@.subrange(i + 1, rel.labels@.len() as int));
        }
        let lab = &rel.labels[i];
        let ghost before = rows_view(r@);
        let mut entries: Vec<(String, FieldScalar)> = Vec::new();
        entries.push((String::from_str("name"), FieldScalar::Text(lab.name.clone())));
        match &lab.id {
            Some(id) => {
                entries.push((String::from_str("discogs_id"), FieldScalar::Int(*id as i64)));
            },
            None => {
                entries.push((String::from_str("discogs_id"), FieldScalar::Null));
            },
        }
        r.push(
            Assertion::new(entity_id, "label", FieldValue::Record(entries), Source::Discogs)
                .with_confidence(90),
        );
        proof {
            assert(rows_view(r@) =~~= before.push(
                record_row(
                    entity_id@,
                    "label"@,
                    seq![
                        ("name"@, ScalarVal::Text(rel.labels@[i as int].name@)),
                        (
                            "discogs_id"@,
                            match rel.labels@[i as int].id {
                                Some(x) => ScalarVal::Int(x as i64 as int),
                                None => ScalarVal::Null,
                            },
                        ),
                    ],
                    Some(90),
                    Source::Discogs,
                ),
            ));
        }
        match &lab.catno {
            Some(c) => {
                let ghost before2 = rows_view(r@);
                r.push(
                    Assertion::new(
                        entity_id,
                        "catalog_number",
                        FieldValue::Text(c.clone()),
                        Source::Discogs,
                    ).with_confidence(90),
                );
                proof {
                    assert(rows_view(r@) =~~= before2.push(
                        text_row(
                            entity_id@,
                            "catalog_number"@,
                            rel.labels@[i as int].catno->0@,
                            Some(90),
                            Source::Discogs,
                        ),
                    ));
                }
            },
            None => {},
        }
        i += 1;
    }
    proof {
        assert(discogs_label_rows(
            entity_id@,
            rel.labels@.subrange(rel.labels@.len() as int, rel.labels@.len() as int),
        ).len() == 0);
        assert(rows_view(r@) =~~= discogs_label_rows(entity_id@, rel.labels@));
    }
    let ghost after_labels = rows_view(r@);
    match &rel.year {
        Some(y) => {
            let ghost before = rows_view(r@);
            r.push(
                Assertion::new(
                    entity_id,
                    "release_year",
                    FieldValue::Int(*y as i64),
                    Source::Discogs,
                ).with_confidence(90),
            );
            proof {
                assert(rows_view(r@) =~~= before.push(
                    AssertRow {
                        entity: entity_id@,
                        field: "release_year"@,
                        value: Val::Int(rel.year->0 as int),
                        confidence: Some(90),
                        source: Source::Discogs,
                    },
                ));
            }
        },
        None => {},
    }
    push_text_rows(&mut r, entity_id, "genre", &rel.genres, 80);
    push_text_rows(&mut r, entity_id, "style", &rel.styles, 80);
    let ghost after_styles = rows_view(r@);
    let mut f: usize = 0;
    proof {
        assert(rows_view(r@) =~~= after_styles + format_rows(entity_id@, rel.formats@).subrange(
            0,
            0,
        ));
    }
    while f < rel.formats.len()
        invariant
            f <= rel.formats@.len(),
            rows_view(r@) =~~= after_styles + format_rows(entity_id@, rel.formats@).subrange(
                0,
                f as int,
            ),
        decreases rel.formats@.len() - f,
    {
        let fmt = &rel.formats[f];
        let ghost before = rows_view(r@);
        let mut entries: Vec<(String, FieldScalar)> = Vec::new();
        entries.push((String::from_str("name"), FieldScalar::Text(fmt.name.clone())));
        entries.push(
            (
                String::from_str("descriptions"),
                FieldScalar::TextList(crate::text::clone_strings(&fmt.descriptions)),
            ),
        );
        r.push(Assertion::new(entity_id, "format", FieldValue::Record(entries), Source::Discogs));
        proof {
            assert(rows_view(r@) =~~= before.push(
                format_rows(entity_id@, rel.formats@)[f as int],
            ));
            assert(rows_view(r@) =~~= after_styles + format_rows(entity_id@, rel.formats@).subrange(
                0,
                f + 1,
            ));
        }
        f += 1;
    }
    proof {
        assert(format_rows(entity_id@, rel.formats@).subrange(
            0,
            rel.formats@.len() as int,
        ) =~= format_rows(entity_id@, rel.formats@));
    }
    let ghost after_formats = rows_view(r@);
    let mut p: usize = 0;
    proof {
        assert(rows_view(r@) =~~= after_formats + personnel_rows(
            entity_id@,
            rel.extraartists@,
        ).subrange(0, 0));
    }
    while p < rel.extraartists.len()
        invariant
            p <= rel.extraartists@.len(),
            rows_view(r@) =~~= after_formats + personnel_rows(
                entity_id@,
                rel.extraartists@,
            ).subrange(0, p as int),
        decreases rel.extraartists@.len() - p,
    {
        let xa = &rel.extraartists[p];
        let ghost before = rows_view(r@);
        let mut entries: Vec<(String, FieldScalar)> = Vec::new();
        entries.push((String::from_str("name"), FieldScalar::Text(xa.name.clone())));
        entries.push((String::from_str("role"), FieldScalar::Text(xa.role.clone())));
        r.push(
            Assertion::new(entity_id, "personnel", FieldValue::Record(entries), Source::Discogs)
                .with_confidence(85),
        );
        proof {
            assert(rows_view(r@) =~~= before.push(
                personnel_rows(entity_id@, rel.extraartists@)[p as int],
            ));
            assert(rows_view(r@) =~~= after_formats + personnel_rows(
                entity_id@,
                rel.extraartists@,
            ).subrange(0, p + 1));
        }
        p += 1;
    }
    proof {
        assert(personnel_rows(entity_id@, rel.extraartists@).subrange(
            0,
            rel.extraartists@.len() as int,
        ) =~= personnel_rows(entity_id@, rel.extraartists@));
        assert(rows_view(r@) =~~= discogs_release_rows(entity_id@, *rel));
    }
    r
}

} // verus!
