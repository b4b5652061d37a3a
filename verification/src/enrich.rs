//! The enrichment stage: fan-out bookkeeping and the bibliographic
//! enricher.
//!
//! Enrichment fans out into one subtask per configured source; each
//! subtask fetches from its provider and appends provenance assertions
//! for what came back. The fetches happen outside; the decisions — which
//! sources are enabled, what fans out, and exactly which assertions a
//! response yields — are here. A failing source reduces coverage and
//! never fails the stage.
//!
//! Because every assertion is stamped with the clock when built,
//! contracts compare assertion *rows*: everything but the fetch time.

use vstd::prelude::*;

use crate::config::Config;
use crate::musicbrainz::{MbRecording, MbReleaseDetail, MbWorkDetail};
use crate::provenance::{Assertion, AssertionVal, Source};
use crate::text::{contains_seq, lower_seq, parse_digits, chars_of, lower_vec};
use crate::value::{FieldScalar, FieldValue, Val};

verus! {

/// An assertion with its fetch time forgotten: what enrichment contracts
/// speak about.
#[verifier::ext_equal]
pub ghost struct AssertRow {
    /// The entity the assertion is about.
    pub entity: Seq<char>,
    /// The asserted field.
    pub field: Seq<char>,
    /// The asserted value.
    pub value: Val,
    /// The confidence, in hundredths, if any.
    pub confidence: Option<int>,
    /// The source.
    pub source: Source,
}

/// The row of an assertion.
pub open spec fn row_of(a: AssertionVal) -> AssertRow {
    AssertRow {
        entity: a.entity_id,
        field: a.field,
        value: a.value,
        confidence: a.confidence,
        source: a.source,
    }
}

/// The rows of a sequence of assertions.
pub open spec fn rows_view(s: Seq<Assertion>) -> Seq<AssertRow> {
    Seq::new(s.len(), |i: int| row_of(s[i]@))
}

/// A row with a plain text value.
pub open spec fn text_row(
    entity: Seq<char>,
    field: Seq<char>,
    text: Seq<char>,
    confidence: Option<int>,
    source: Source,
) -> AssertRow {
    AssertRow { entity, field, value: Val::Text(text), confidence, source }
}

/// A row whose value is a record of named scalars.
pub open spec fn record_row(
    entity: Seq<char>,
    field: Seq<char>,
    entries: Seq<(Seq<char>, crate::value::ScalarVal)>,
    confidence: Option<int>,
    source: Source,
) -> AssertRow {
    AssertRow { entity, field, value: Val::Record(entries), confidence, source }
}

/// The rows the bibliographic enricher derives from a recording: its
/// title, then one artist record per credit, in order.
pub open spec fn recording_rows(entity: Seq<char>, rec: MbRecording) -> Seq<AssertRow> {
    seq![text_row(entity, "title"@, rec.title@, None, Source::MusicBrainz)] + (
    match rec.artist_credit {
        Some(credits) => Seq::new(
            credits@.len(),
            |i: int| record_row(
                entity,
                "artist"@,
                seq![
                    ("name"@, crate::value::ScalarVal::Text(credits@[i].artist.name@)),
                    ("musicbrainz_id"@, crate::value::ScalarVal::Text(credits@[i].artist.id@)),
                ],
                None,
                Source::MusicBrainz,
            ),
        ),
        None => Seq::empty(),
    })
}

/// Build a named-artist record value.
fn artist_record(name: &str, id_key: &str, id: &str) -> (r: FieldValue)
    ensures
        r@ == Val::Record(
            seq![
                ("name"@, crate::value::ScalarVal::Text(name@)),
                (id_key@, crate::value::ScalarVal::Text(id@)),
            ],
        ),
{
    let mut entries: Vec<(String, FieldScalar)> = Vec::new();
    entries.push((String::from_str("name"), FieldScalar::Text(name.to_owned())));
    entries.push((id_key.to_owned(), FieldScalar::Text(id.to_owned())));
    let r = FieldValue::Record(entries);
    proof {
        assert(r@ =~~= Val::Record(
            seq![
                ("name"@, crate::value::ScalarVal::Text(name@)),
                (id_key@, crate::value::ScalarVal::Text(id@)),
            ],
        ));
    }
    r
}

/// The assertions the bibliographic enricher derives from a recording:
/// its title and one artist record per credit.
pub fn recording_assertions(entity_id: &str, rec: &MbRecording) -> (r: Vec<Assertion>)
    ensures
        rows_view(r@) == recording_rows(entity_id@, *rec),
{
    let mut r: Vec<Assertion> = Vec::new();
    r.push(
        Assertion::new(
            entity_id,
            "title",
            FieldValue::Text(rec.title.clone()),
            Source::MusicBrainz,
        ),
    );
    match &rec.artist_credit {
        Some(credits) => {
            let mut i: usize = 0;
            while i < credits.len()
                invariant
                    rec.artist_credit matches Some(cs) && cs == credits,
                    i <= credits@.len(),
                    rows_view(r@).len() == 1 + i,
                    rows_view(r@)[0] == text_row(
                        entity_id@,
                        "title"@,
                        rec.title@,
                        None,
                        Source::MusicBrainz,
                    ),
                    forall|k: int|
                        0 <= k < i ==> rows_view(r@)[1 + k] =~~= record_row(
                            entity_id@,
                            "artist"@,
                            seq![
                                ("name"@, crate::value::ScalarVal::Text(credits@[k].artist.name@)),
                                (
                                    "musicbrainz_id"@,
                                    crate::value::ScalarVal::Text(credits@[k].artist.id@),
                                ),
                            ],
                            None,
                            Source::MusicBrainz,
                        ),
                decreases credits@.len() - i,
            {
                let value = artist_record(
                    credits[i].artist.name.as_str(),
                    "musicbrainz_id",
                    credits[i].artist.id.as_str(),
                );
                r.push(Assertion::new(entity_id, "artist", value, Source::MusicBrainz));
                i += 1;
            }
        },
        None => {},
    }
    proof {
        assert(rows_view(r@) =~~= recording_rows(entity_id@, *rec));
    }
    r
}

/// Whether a work attribute looks like a musical key: it contains
/// `major` or `minor`, without regard to case.
pub open spec fn looks_like_key(attr: Seq<char>) -> bool {
    contains_seq(lower_seq(attr), "major"@) || contains_seq(lower_seq(attr), "minor"@)
}

/// The key rows among a work's attributes, in order: one per attribute
/// that looks like a key, at confidence 90.
pub open spec fn key_rows(entity: Seq<char>, attrs: Seq<String>) -> Seq<AssertRow>
    decreases attrs.len(),
{
    if attrs.len() == 0 {
        Seq::empty()
    } else {
        (if looks_like_key(attrs[0]@) {
            seq![text_row(entity, "key"@, attrs[0]@, Some(90), Source::MusicBrainz)]
        } else {
            Seq::empty()
        }) + key_rows(entity, attrs.drop_first())
    }
}

/// The composer rows among a work's relations, in order: one artist
/// record per `composer` relation, at confidence 95.
pub open spec fn composer_rows(entity: Seq<char>, rels: Seq<crate::musicbrainz::MbWorkRelation>)
    -> Seq<AssertRow>
    decreases rels.len(),
{
    if rels.len() == 0 {
        Seq::empty()
    } else {
        (if rels[0].relation_type@ == "composer"@ && rels[0].artist is Some {
            seq![
                record_row(
                    entity,
                    "composer"@,
                    seq![
                        ("name"@, crate::value::ScalarVal::Text(rels[0].artist->0.name@)),
                        ("musicbrainz_id"@, crate::value::ScalarVal::Text(rels[0].artist->0.id@)),
                    ],
                    Some(95),
                    Source::MusicBrainz,
                ),
            ]
        } else {
            Seq::empty()
        }) + composer_rows(entity, rels.drop_first())
    }
}

/// The rows the bibliographic enricher derives from a work: its title
/// and external id, any attribute that looks like a key, and the
/// composer relations.
pub open spec fn work_rows(entity: Seq<char>, work: MbWorkDetail) -> Seq<AssertRow> {
    seq![
        text_row(entity, "work_title"@, work.title@, None, Source::MusicBrainz),
        text_row(entity, "work_musicbrainz_id"@, work.id@, None, Source::MusicBrainz),
    ] + key_rows(entity, work.attributes@) + composer_rows(entity, work.relations@)
}

/// The assertions the bibliographic enricher derives from a work.
pub fn work_assertions(entity_id: &str, work: &MbWorkDetail) -> (r: Vec<Assertion>)
    ensures
        rows_view(r@) == work_rows(entity_id@, *work),
{
    let mut r: Vec<Assertion> = Vec::new();
    r.push(
        Assertion::new(
            entity_id,
            "work_title",
            FieldValue::Text(work.title.clone()),
            Source::MusicBrainz,
        ),
    );
    r.push(
        Assertion::new(
            entity_id,
            "work_musicbrainz_id",
            FieldValue::Text(work.id.clone()),
            Source::MusicBrainz,
        ),
    );
    let ghost base = seq![
        text_row(entity_id@, "work_title"@, work.title@, None, Source::MusicBrainz),
        text_row(entity_id@, "work_musicbrainz_id"@, work.id@, None, Source::MusicBrainz),
    ];
    proof {
        assert(rows_view(r@) =~~= base);
        assert(work.attributes@.subrange(0, work.attributes@.len() as int) =~= work.attributes@);
    }
    let mut i: usize = 0;
    while i < work.attributes.len()
        invariant
            i <= work.attributes@.len(),
            key_rows(entity_id@, work.attributes@) =~~= rows_view(r@).subrange(
                base.len() as int,
                rows_view(r@).len() as int,
            ) + key_rows(
                entity_id@,
                work.attributes@.subrange(i as int, work.attributes@.len() as int),
            ),
            rows_view(r@).subrange(0, base.len() as int) =~~= base,
            rows_view(r@).len() >= base.len(),
        decreases work.attributes@.len() - i,
    {
        let ghost tail = work.attributes@.subrange(i as int, work.attributes@.len() as int);
        proof {
            assert(tail[0] == work.attributes@[i as int]);
            assert(tail.drop_first() =~= work.attributes@.subrange(
                i + 1,
                work.attributes@.len() as int,
            ));
        }
        let attr = &work.attributes[i];
        let low = lower_vec(&chars_of(attr.as_str()));
        let is_key = crate::text::contains(&low, &chars_of("major")) || crate::text::contains(
            &low,
            &chars_of("minor"),
        );
        if is_key {
            let ghost before = rows_view(r@);
            r.push(
                Assertion::new(
                    entity_id,
                    "key",
                    FieldValue::Text(attr.clone()),
                    Source::MusicBrainz,
                ).with_confidence(90),
            );
            proof {
                assert(rows_view(r@) =~~= before.push(
                    text_row(
                        entity_id@,
                        "key"@,
                        work.attributes@[i as int]@,
                        Some(90),
                        Source::MusicBrainz,
                    ),
                ));
                assert(rows_view(r@).subrange(0, base.len() as int) =~~= base);
            }
        }
        i += 1;
    }
    proof {
        assert(work.attributes@.subrange(
            work.attributes@.len() as int,
            work.attributes@.len() as int,
        ).len() == 0);
        assert(work.relations@.subrange(0, work.relations@.len() as int) =~= work.relations@);
    }
    let ghost mid = rows_view(r@);
    let mut j: usize = 0;
    while j < work.relations.len()
        invariant
            j <= work.relations@.len(),
            composer_rows(entity_id@, work.relations@) =~~= rows_view(r@).subrange(
                mid.len() as int,
                rows_view(r@).len() as int,
            ) + composer_rows(
                entity_id@,
                work.relations@.subrange(j as int, work.relations@.len() as int),
            ),
            rows_view(r@).subrange(0, mid.len() as int) =~~= mid,
            rows_view(r@).len() >= mid.len(),
        decreases work.relations@.len() - j,
    {
        let ghost tail = work.relations@.subrange(j as int, work.relations@.len() as int);
        proof {
            assert(tail[0] == work.relations@[j as int]);
            assert(tail.drop_first() =~= work.relations@.subrange(
                j + 1,
                work.relations@.len() as int,
            ));
        }
        let rel = &work.relations[j];
        if crate::text::str_eq(rel.relation_type.as_str(), "composer") {
            match &rel.artist {
                Some(a) => {
                    let ghost before = rows_view(r@);
                    let value = artist_record(a.name.as_str(), "musicbrainz_id", a.id.as_str());
                    r.push(
                        Assertion::new(entity_id, "composer", value, Source::MusicBrainz)
                            .with_confidence(95),
                    );
                    proof {
                        assert(rows_view(r@) =~~= before.push(
                            record_row(
                                entity_id@,
                                "composer"@,
                                seq![
                                    (
                                        "name"@,
                                        crate::value::ScalarVal::Text(
                                            work.relations@[j as int].artist->0.name@,
                                        ),
                                    ),
                                    (
                                        "musicbrainz_id"@,
                                        crate::value::ScalarVal::Text(
                                            work.relations@[j as int].artist->0.id@,
                                        ),
                                    ),
                                ],
                                Some(95),
                                Source::MusicBrainz,
                            ),
                        ));
                        assert(rows_view(r@).subrange(0, mid.len() as int) =~~= mid);
                    }
                },
                None => {},
            }
        }
        j += 1;
    }
    proof {
        assert(work.relations@.subrange(
            work.relations@.len() as int,
            work.relations@.len() as int,
        ).len() == 0);
        assert(mid =~~= base + key_rows(entity_id@, work.attributes@));
        assert(rows_view(r@) =~~= work_rows(entity_id@, *work));
    }
    r
}

/// The year at the head of a release date: the digits before the first
/// hyphen (or the whole date), read as a number, when one to nine digits
/// long.
pub open spec fn date_year(date: Seq<char>) -> Option<int> {
    let prefix = match crate::scan::last_index_of(date, '-') {
        Some(_) => date.subrange(0, first_hyphen(date, 0)),
        None => date,
    };
    if prefix.len() > 0 && prefix.len() <= 9 && crate::text::all_digits(prefix) {
        Some(crate::text::digits_value(prefix))
    } else {
        None
    }
}

/// The first hyphen at or after `i`, or the length.
pub open spec fn first_hyphen(date: Seq<char>, i: int) -> int
    decreases date.len() - i,
{
    if i < 0 || i >= date.len() {
        date.len() as int
    } else if date[i] == '-' {
        i
    } else {
        first_hyphen(date, i + 1)
    }
}

/// The rows the bibliographic enricher derives from a release: the
/// release year parsed from the date's prefix (confidence 95), then per
/// label entry a label record and a catalog number, each at confidence
/// 95.
pub open spec fn release_rows(entity: Seq<char>, rel: MbReleaseDetail) -> Seq<AssertRow> {
    (match rel.date {
        Some(d) => match date_year(d@) {
            Some(y) => seq![
                AssertRow {
                    entity,
                    field: "release_year"@,
                    value: Val::Int(y),
                    confidence: Some(95),
                    source: Source::MusicBrainz,
                },
            ],
            None => Seq::empty(),
        },
        None => Seq::empty(),
    }) + label_rows(entity, rel.label_info@)
}

/// The label and catalog-number rows of a release's label entries, in
/// order.
pub open spec fn label_rows(entity: Seq<char>, infos: Seq<crate::musicbrainz::MbLabelInfo>) -> Seq<
    AssertRow,
>
    decreases infos.len(),
{
    if infos.len() == 0 {
        Seq::empty()
    } else {
        (match infos[0].label {
            Some(lab) => seq![
                record_row(
                    entity,
                    "label"@,
                    seq![
                        ("name"@, crate::value::ScalarVal::Text(lab.name@)),
                        ("musicbrainz_id"@, crate::value::ScalarVal::Text(lab.id@)),
                    ],
                    Some(95),
                    Source::MusicBrainz,
                ),
            ],
            None => Seq::empty(),
        }) + (match infos[0].catalog_number {
            Some(c) => seq![text_row(entity, "catalog_number"@, c@, Some(95), Source::MusicBrainz)],
            None => Seq::empty(),
        }) + label_rows(entity, infos.drop_first())
    }
}

/// Parse the year from a release date's prefix.
fn parse_date_year(date: &str) -> (r: Option<i64>)
    ensures
        match r {
            Some(y) => Some(y as int) == date_year(date@),
            None => date_year(date@) is None,
        },
{
    let cs = chars_of(date);
    let n = cs.len();
    let mut h: usize = 0;
    let mut any = false;
    while h < n && !any
        invariant
            n == cs@.len(),
            h <= n,
            !any ==> first_hyphen(cs@, 0) == first_hyphen(cs@, h as int),
            !any ==> crate::scan::last_index_of(cs@.subrange(0, h as int), '-') is None,
            any ==> 0 <= first_hyphen(cs@, 0) < n && cs@[first_hyphen(cs@, 0)] == '-' && h == n,
            any ==> crate::scan::last_index_of(cs@, '-') is Some,
        decreases n - h,
    {
        proof {
            let pre = cs@.subrange(0, h + 1);
            assert(pre.drop_last() =~= cs@.subrange(0, h as int));
            assert(pre.last() == cs@[h as int]);
        }
        if cs[h] == '-' {
            proof {
                assert(first_hyphen(cs@, h as int) == h as int);
                lemma_last_hyphen_from_char(cs@, h as int);
            }
            any = true;
            h = n;
        } else {
            h += 1;
        }
    }
    let ghost hh = first_hyphen(cs@, 0);
    let mut prefix: Vec<char> = Vec::new();
    let mut m: usize = 0;
    let bound = if any {
        proof {
            lemma_first_hyphen_bounds(cs@, 0);
        }
        let mut b: usize = 0;
        while b < n && cs[b] != '-'
            invariant
                n == cs@.len(),
                b <= n,
                first_hyphen(cs@, 0) == first_hyphen(cs@, b as int),
            decreases n - b,
        {
            b += 1;
        }
        proof {
            if b < n {
                assert(first_hyphen(cs@, b as int) == b as int);
            }
        }
        b
    } else {
        n
    };
    proof {
        if any {
            assert(bound as int == hh);
        } else {
            assert(crate::scan::last_index_of(cs@.subrange(0, n as int), '-') is None);
            assert(cs@.subrange(0, n as int) =~= cs@);
        }
        assert(prefix@ =~= cs@.subrange(0, 0));
    }
    while m < bound
        invariant
            bound <= cs@.len(),
            m <= bound,
            prefix@ == cs@.subrange(0, m as int),
        decreases bound - m,
    {
        prefix.push(cs[m]);
        proof {
            assert(prefix@ =~= cs@.subrange(0, m + 1));
        }
        m += 1;
    }
    proof {
        if any {
            assert(prefix@ =~= cs@.subrange(0, hh));
        } else {
            assert(prefix@ =~= cs@);
        }
    }
    parse_digits(&prefix)
}

proof fn lemma_first_hyphen_bounds(date: Seq<char>, i: int)
    requires
        0 <= i <= date.len(),
    ensures
        i <= first_hyphen(date, i) <= date.len(),
    decreases date.len() - i,
{
    if i < date.len() && date[i] != '-' {
        lemma_first_hyphen_bounds(date, i + 1);
    }
}

proof fn lemma_last_hyphen_from_char(s: Seq<char>, i: int)
    requires
        0 <= i < s.len(),
        s[i] == '-',
    ensures
        crate::scan::last_index_of(s, '-') is Some,
    decreases s.len(),
{
    if s.len() > 0 {
        if s.last() == '-' {
        } else {
            assert(i < s.len() - 1);
            lemma_last_hyphen_from_char(s.drop_last(), i);
        }
    }
}

/// The assertions the bibliographic enricher derives from a release.
pub fn release_assertions(entity_id: &str, rel: &MbReleaseDetail) -> (r: Vec<Assertion>)
    ensures
        rows_view(r@) == release_rows(entity_id@, *rel),
{
    let mut r: Vec<Assertion> = Vec::new();
    match &rel.date {
        Some(d) => {
            match parse_date_year(d.as_str()) {
                Some(y) => {
                    r.push(
                        Assertion::new(
                            entity_id,
                            "release_year",
                            FieldValue::Int(y),
                            Source::MusicBrainz,
                        ).with_confidence(95),
                    );
                },
                None => {},
            }
        },
        None => {},
    }
    let ghost base = rows_view(r@);
    proof {
        assert(rel.label_info@.subrange(0, rel.label_info@.len() as int) =~= rel.label_info@);
    }
    let mut i: usize = 0;
    while i < rel.label_info.len()
        invariant
            i <= rel.label_info@.len(),
            base + label_rows(entity_id@, rel.label_info@) =~~= release_rows(entity_id@, *rel),
            label_rows(entity_id@, rel.label_info@) =~~= rows_view(r@).subrange(
                base.len() as int,
                rows_view(r@).len() as int,
            ) + label_rows(
                entity_id@,
                rel.label_info@.subrange(i as int, rel.label_info@.len() as int),
            ),
            rows_view(r@).subrange(0, base.len() as int) =~~= base,
            rows_view(r@).len() >= base.len(),
        decreases rel.label_info@.len() - i,
    {
        let ghost tail = rel.label_info@.subrange(i as int, rel.label_info@.len() as int);
        proof {
            assert(tail[0] == rel.label_info@[i as int]);
            assert(tail.drop_first() =~= rel.label_info@.subrange(
                i + 1,
                rel.label_info@.len() as int,
            ));
        }
        let info = &rel.label_info[i];
        match &info.label {
            Some(lab) => {
                let ghost before = rows_view(r@);
                let value = artist_record(lab.name.as_str(), "musicbrainz_id", lab.id.as_str());
                r.push(
                    Assertion::new(entity_id, "label", value, Source::MusicBrainz)
                        .with_confidence(95),
                );
                proof {
                    assert(rows_view(r@) =~~= before.push(
                        record_row(
                            entity_id@,
                            "label"@,
                            seq![
                                (
                                    "name"@,
                                    crate::value::ScalarVal::Text(
                                        rel.label_info@[i as int].label->0.name@,
                                    ),
                                ),
                                (
                                    "musicbrainz_id"@,
                                    crate::value::ScalarVal::Text(
                                        rel.label_info@[i as int].label->0.id@,
                                    ),
                                ),
                            ],
                            Some(95),
                            Source::MusicBrainz,
                        ),
                    ));
                    assert(rows_view(r@).subrange(0, base.len() as int) =~~= base);
                }
            },
            None => {},
        }
        match &info.catalog_number {
            Some(c) => {
                let ghost before = rows_view(r@);
                r.push(
                    Assertion::new(
                        entity_id,
                        "catalog_number",
                        FieldValue::Text(c.clone()),
                        Source::MusicBrainz,
                    ).with_confidence(95),
                );
                proof {
                    assert(rows_view(r@) =~~= before.push(
                        text_row(
                            entity_id@,
                            "catalog_number"@,
                            rel.label_info@[i as int].catalog_number->0@,
                            Some(95),
                            Source::MusicBrainz,
                        ),
                    ));
                    assert(rows_view(r@).subrange(0, base.len() as int) =~~= base);
                }
            },
            None => {},
        }
        i += 1;
    }
    proof {
        assert(rel.label_info@.subrange(
            rel.label_info@.len() as int,
            rel.label_info@.len() as int,
        ).len() == 0);
        assert(rows_view(r@) =~~= release_rows(entity_id@, *rel));
    }
    r
}

/// The enrichment sources the configuration enables, in fan-out order:
/// the bibliographic and encyclopedic sources always; the folksonomy
/// source only with an api key; the marketplace always (a token only
/// raises its rate limit).
pub fn enabled_sources(config: &Config) -> (r: Vec<String>)
    ensures
        config.lastfm_api_key is Some ==> r@.len() == 4 && r@[0]@ == "musicbrainz"@ && r@[1]@
            == "wikidata"@ && r@[2]@ == "lastfm"@ && r@[3]@ == "discogs"@,
        config.lastfm_api_key is None ==> r@.len() == 3 && r@[0]@ == "musicbrainz"@ && r@[1]@
            == "wikidata"@ && r@[2]@ == "discogs"@,
{
    let mut r: Vec<String> = Vec::new();
    r.push(String::from_str("musicbrainz"));
    r.push(String::from_str("wikidata"));
    if config.lastfm_api_key.is_some() {
        r.push(String::from_str("lastfm"));
    }
    r.push(String::from_str("discogs"));
    r
}

} // verus!
