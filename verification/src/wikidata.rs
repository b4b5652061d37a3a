//! The encyclopedic enricher: typed claims per property.
//!
//! The surrounding program resolves a bibliographic work id to an
//! encyclopedic entity and fetches the entity; this module reads the
//! claims. Entity-reference values are kept as opaque identifiers;
//! string values are kept verbatim.

use vstd::prelude::*;

use crate::enrich::{record_row, rows_view, text_row, AssertRow};
use crate::provenance::{Assertion, Source};
use crate::text::str_eq;
use crate::value::{FieldScalar, FieldValue, ScalarVal};

verus! {

/// A reference to another encyclopedic entity.
#[derive(Debug, PartialEq)]
pub struct WikidataEntityRef {
    /// The referenced entity's identifier.
    pub id: String,
}

/// A quantity value.
#[derive(Debug, PartialEq)]
pub struct WikidataQuantity {
    /// The amount, as written, possibly with a leading `+`.
    pub amount: String,
}

/// A typed data value inside a claim.
#[derive(Debug, PartialEq)]
pub enum WikidataDataValue {
    /// A plain string.
    StringValue(String),
    /// A reference to another entity.
    EntityId(WikidataEntityRef),
    /// An amount with an optional unit.
    Quantity(WikidataQuantity),
    /// Anything else.
    Other,
}

/// The value cell of a claim; absent for claims that state no value.
#[derive(Debug, PartialEq)]
pub struct WikidataSnak {
    /// The data value, if present.
    pub datavalue: Option<WikidataDataValue>,
}

/// A single claim (statement) on an entity.
#[derive(Debug, PartialEq)]
pub struct WikidataClaim {
    /// The snak holding the claim's value.
    pub mainsnak: WikidataSnak,
}

/// An encyclopedic entity: its identifier and its claims, keyed by
/// property.
#[derive(Debug, PartialEq)]
pub struct WikidataEntity {
    /// The entity's identifier.
    pub id: String,
    /// Claims keyed by property identifier.
    pub claims: Vec<(String, Vec<WikidataClaim>)>,
}

/// The claim list of the first entry for a property.
pub open spec fn find_claims(
    claims: Seq<(String, Vec<WikidataClaim>)>,
    prop: Seq<char>,
) -> Option<Seq<WikidataClaim>>
    decreases claims.len(),
{
    if claims.len() == 0 {
        None
    } else if claims[0].0@ == prop {
        Some(claims[0].1@)
    } else {
        find_claims(claims.drop_first(), prop)
    }
}

/// The plain string values among a claim list, in order.
pub open spec fn string_values_of(cs: Seq<WikidataClaim>) -> Seq<Seq<char>>
    decreases cs.len(),
{
    if cs.len() == 0 {
        Seq::empty()
    } else {
        (match cs[0].mainsnak.datavalue {
            Some(WikidataDataValue::StringValue(s)) => seq![s@],
            _ => Seq::empty(),
        }) + string_values_of(cs.drop_first())
    }
}

/// The entity-reference identifiers among a claim list, in order.
pub open spec fn entity_refs_of(cs: Seq<WikidataClaim>) -> Seq<Seq<char>>
    decreases cs.len(),
{
    if cs.len() == 0 {
        Seq::empty()
    } else {
        (match cs[0].mainsnak.datavalue {
            Some(WikidataDataValue::EntityId(e)) => seq![e.id@],
            _ => Seq::empty(),
        }) + entity_refs_of(cs.drop_first())
    }
}

/// The string values of a property: for the property's first entry,
/// what [`string_values_of`] collects; nothing when the property is
/// absent.
pub open spec fn spec_string_values(e: WikidataEntity, prop: Seq<char>) -> Seq<Seq<char>> {
    match find_claims(e.claims@, prop) {
        Some(cs) => string_values_of(cs),
        None => Seq::empty(),
    }
}

/// The entity references of a property.
pub open spec fn spec_entity_refs(e: WikidataEntity, prop: Seq<char>) -> Seq<Seq<char>> {
    match find_claims(e.claims@, prop) {
        Some(cs) => entity_refs_of(cs),
        None => Seq::empty(),
    }
}

/// The views of a sequence of strings.
pub open spec fn texts_view(v: Seq<String>) -> Seq<Seq<char>> {
    Seq::new(v.len(), |i: int| v[i]@)
}

impl WikidataEntity {
    /// The claim list for a property, when the entity has one.
    fn claims_for(&self, property: &str) -> (r: Option<&Vec<WikidataClaim>>)
        ensures
            match r {
                Some(cs) => Some(cs@) == find_claims(self.claims@, property@),
                None => find_claims(self.claims@, property@) is None,
            },
    {
        let ghost cl = self.claims@;
        let mut i: usize = 0;
        proof {
            assert(cl.subrange(0, cl.len() as int) =~= cl);
        }
        while i < self.claims.len()
            invariant
                cl == self.claims@,
                i <= cl.len(),
                find_claims(cl, property@) == find_claims(
                    cl.subrange(i as int, cl.len() as int),
                    property@,
                ),
            decreases cl.len() - i,
        {
            proof {
                let tail = cl.subrange(i as int, cl.len() as int);
                assert(tail[0] == cl[i as int]);
                assert(tail.drop_first() =~= cl.subrange(i + 1, cl.len() as int));
            }
            if str_eq(self.claims[i].0.as_str(), property) {
                return Some(&self.claims[i].1);
            }
            i += 1;
        }
        proof {
            assert(cl.subrange(cl.len() as int, cl.len() as int).len() == 0);
        }
        None
    }

    /// The plain string values the entity states for a property; empty
    /// when the property is absent or holds no strings.
    pub fn get_string_values(&self, property: &str) -> (r: Vec<String>)
        ensures
            texts_view(r@) == spec_string_values(*self, property@),
    {
        let mut r: Vec<String> = Vec::new();
        match self.claims_for(property) {
            Some(cs) => {
                let ghost cv = cs@;
                let mut i: usize = 0;
                proof {
                    assert(cv.subrange(0, cv.len() as int) =~= cv);
                    assert(texts_view(r@) =~= Seq::<Seq<char>>::empty());
                }
                while i < cs.len()
                    invariant
                        cv == cs@,
                        i <= cv.len(),
                        string_values_of(cv) =~= texts_view(r@) + string_values_of(
                            cv.subrange(i as int, cv.len() as int),
                        ),
                    decreases cv.len() - i,
                {
                    proof {
                        let tail = cv.subrange(i as int, cv.len() as int);
                        assert(tail[0] == cv[i as int]);
                        assert(tail.drop_first() =~= cv.subrange(i + 1, cv.len() as int));
                    }
                    let ghost before = texts_view(r@);
                    match &cs[i].mainsnak.datavalue {
                        Some(WikidataDataValue::StringValue(s)) => {
                            r.push(s.clone());
                            proof {
                                assert(texts_view(r@) =~= before.push(
                                    cv[i as int].mainsnak.datavalue->0->StringValue_0@,
                                ));
                            }
                        },
                        _ => {},
                    }
                    i += 1;
                }
                proof {
                    assert(string_values_of(cv.subrange(cv.len() as int, cv.len() as int)).len()
                        == 0);
                    assert(texts_view(r@) =~= string_values_of(cv));
                }
            },
            None => {},
        }
        r
    }

    /// The entity-reference identifiers the entity states for a
    /// property; empty when the property is absent or holds no
    /// references.
    pub fn get_entity_refs(&self, property: &str) -> (r: Vec<String>)
        ensures
            texts_view(r@) == spec_entity_refs(*self, property@),
    {
        let mut r: Vec<String> = Vec::new();
        match self.claims_for(property) {
            Some(cs) => {
                let ghost cv = cs@;
                let mut i: usize = 0;
                proof {
                    assert(cv.subrange(0, cv.len() as int) =~= cv);
                    assert(texts_view(r@) =~= Seq::<Seq<char>>::empty());
                }
                while i < cs.len()
                    invariant
                        cv == cs@,
                        i <= cv.len(),
                        entity_refs_of(cv) =~= texts_view(r@) + entity_refs_of(
                            cv.subrange(i as int, cv.len() as int),
                        ),
                    decreases cv.len() - i,
                {
                    proof {
                        let tail = cv.subrange(i as int, cv.len() as int);
                        assert(tail[0] == cv[i as int]);
                        assert(tail.drop_first() =~= cv.subrange(i + 1, cv.len() as int));
                    }
                    let ghost before = texts_view(r@);
                    match &cs[i].mainsnak.datavalue {
                        Some(WikidataDataValue::EntityId(e)) => {
                            r.push(e.id.clone());
                            proof {
                                assert(texts_view(r@) =~= before.push(
                                    cv[i as int].mainsnak.datavalue->0->EntityId_0.id@,
                                ));
                            }
                        },
                        _ => {},
                    }
                    i += 1;
                }
                proof {
                    assert(entity_refs_of(cv.subrange(cv.len() as int, cv.len() as int)).len()
                        == 0);
                    assert(texts_view(r@) =~= entity_refs_of(cv));
                }
            },
            None => {},
        }
        r
    }
}

/// The identifier at the tail of a resource path: what follows the last
/// slash, or the whole text when it has none.
pub open spec fn spec_tail_segment(v: Seq<char>) -> Seq<char> {
    match crate::scan::last_index_of(v, '/') {
        Some(k) => v.subrange(k + 1, v.len() as int),
        None => v,
    }
}

/// The entity identifier at the tail of a resource path.
pub fn qid_from_binding(value: &str) -> (r: String)
    ensures
        r@ == spec_tail_segment(value@),
{
    let cs = crate::text::chars_of(value);
    let n = cs.len();
    let start = match find_last_slash(&cs) {
        Some(k) => k + 1,
        None => 0,
    };
    let mut out: Vec<char> = Vec::new();
    let mut i: usize = start;
    proof {
        assert(out@ =~= cs@.subrange(start as int, start as int));
    }
    while i < cs.len()
        invariant
            start <= i <= cs@.len(),
            out@ == cs@.subrange(start as int, i as int),
        decreases cs@.len() - i,
    {
        out.push(cs[i]);
        proof {
            assert(out@ =~= cs@.subrange(start as int, i + 1));
        }
        i += 1;
    }
    proof {
        if crate::scan::last_index_of(cs@, '/') is None {
            assert(out@ =~= cs@);
        }
    }
    crate::text::string_from_chars(&out)
}

/// Find the last slash.
fn find_last_slash(cs: &Vec<char>) -> (r: Option<usize>)
    ensures
        match r {
            Some(i) => i < cs@.len() && Some(i as int) == crate::scan::last_index_of(cs@, '/'),
            None => crate::scan::last_index_of(cs@, '/') is None,
        },
{
    let mut best: Option<usize> = None;
    let mut i: usize = 0;
    proof {
        assert(cs@.subrange(0, 0).len() == 0);
    }
    while i < cs.len()
        invariant
            i <= cs@.len(),
            match best {
                Some(b) => b < i && Some(b as int) == crate::scan::last_index_of(
                    cs@.subrange(0, i as int),
                    '/',
                ),
                None => crate::scan::last_index_of(cs@.subrange(0, i as int), '/') is None,
            },
        decreases cs@.len() - i,
    {
        proof {
            let pre = cs@.subrange(0, i + 1);
            assert(pre.drop_last() =~= cs@.subrange(0, i as int));
            assert(pre.last() == cs@[i as int]);
        }
        if cs[i] == '/' {
            best = Some(i);
        }
        i += 1;
    }
    proof {
        assert(cs@.subrange(0, cs@.len() as int) =~= cs@);
    }
    best
}

/// One property the encyclopedic enricher reads: its identifier, the
/// field it asserts, its confidence, and whether its values are entity
/// references or plain strings.
struct PropertyRead {
    property: &'static str,
    field: &'static str,
    confidence: u32,
    is_ref: bool,
}

/// The rows one property read yields: per value, an identifier record
/// (for references) or the verbatim string.
pub open spec fn property_rows(
    entity_id: Seq<char>,
    field: Seq<char>,
    confidence: int,
    is_ref: bool,
    values: Seq<Seq<char>>,
) -> Seq<AssertRow> {
    Seq::new(
        values.len(),
        |i: int| if is_ref {
            record_row(
                entity_id,
                field,
                seq![("wikidata_qid"@, ScalarVal::Text(values[i]))],
                Some(confidence),
                Source::Wikidata,
            )
        } else {
            text_row(entity_id, field, values[i], Some(confidence), Source::Wikidata)
        },
    )
}

/// The rows the encyclopedic enricher derives from an entity: tonality,
/// form, catalog code, instrumentation, time period, and artistic
/// school, in that order; references carry their identifiers, strings
/// are verbatim.
pub open spec fn wikidata_rows(entity_id: Seq<char>, e: WikidataEntity) -> Seq<AssertRow> {
    property_rows(entity_id, "key"@, 90, true, spec_entity_refs(e, "P826"@)) + property_rows(
        entity_id,
        "form"@,
        90,
        true,
        spec_entity_refs(e, "P7937"@),
    ) + property_rows(entity_id, "catalog_number"@, 95, false, spec_string_values(e, "P528"@))
        + property_rows(entity_id, "instrumentation"@, 90, true, spec_entity_refs(e, "P870"@))
        + property_rows(entity_id, "period"@, 85, true, spec_entity_refs(e, "P2348"@))
        + property_rows(entity_id, "school"@, 85, true, spec_entity_refs(e, "P135"@))
}

/// Append one property's rows.
fn push_property(
    out: &mut Vec<Assertion>,
    entity_id: &str,
    field: &str,
    confidence: u32,
    is_ref: bool,
    values: &Vec<String>,
)
    requires
        confidence <= 100,
    ensures
        rows_view(final(out)@) == rows_view(old(out)@) + property_rows(
            entity_id@,
            field@,
            confidence as int,
            is_ref,
            texts_view(values@),
        ),
{
    let mut i: usize = 0;
    proof {
        assert(rows_view(out@) =~~= rows_view(old(out)@) + property_rows(
            entity_id@,
            field@,
            confidence as int,
            is_ref,
            texts_view(values@).subrange(0, 0),
        ));
    }
    while i < values.len()
        invariant
            confidence <= 100,
            i <= values@.len(),
            rows_view(out@) =~~= rows_view(old(out)@) + property_rows(
                entity_id@,
                field@,
                confidence as int,
                is_ref,
                texts_view(values@).subrange(0, i as int),
            ),
        decreases values@.len() - i,
    {
        let ghost before = rows_view(out@);
        if is_ref {
            let mut entries: Vec<(String, FieldScalar)> = Vec::new();
            entries.push((String::from_str("wikidata_qid"), FieldScalar::Text(values[i].clone())));
            out.push(
                Assertion::new(
                    entity_id,
                    field,
                    FieldValue::Record(entries),
                    Source::Wikidata,
                ).with_confidence(confidence),
            );
        } else {
            out.push(
                Assertion::new(
                    entity_id,
                    field,
                    FieldValue::Text(values[i].clone()),
                    Source::Wikidata,
                ).with_confidence(confidence),
            );
        }
        proof {
            let vals = texts_view(values@);
            assert(rows_view(out@) =~~= before.push(
                if is_ref {
                    record_row(
                        entity_id@,
                        field@,
                        seq![("wikidata_qid"@, ScalarVal::Text(vals[i as int]))],
                        Some(confidence as int),
                        Source::Wikidata,
                    )
                } else {
                    text_row(entity_id@, field@, vals[i as int], Some(confidence as int), Source::Wikidata)
                },
            ));
            assert(rows_view(out@) =~~= rows_view(old(out)@) + property_rows(
                entity_id@,
                field@,
                confidence as int,
                is_ref,
                vals.subrange(0, i + 1),
            ));
        }
        i += 1;
    }
    proof {
        assert(texts_view(values@).subrange(0, values@.len() as int) =~= texts_view(values@));
    }
}

/// The assertions the encyclopedic enricher derives from an entity.
pub fn wikidata_assertions(entity_id: &str, e: &WikidataEntity) -> (r: Vec<Assertion>)
    ensures
        rows_view(r@) == wikidata_rows(entity_id@, *e),
{
    let mut r: Vec<Assertion> = Vec::new();
    let keys = e.get_entity_refs("P826");
    push_property(&mut r, entity_id, "key", 90, true, &keys);
    let forms = e.get_entity_refs("P7937");
    push_property(&mut r, entity_id, "form", 90, true, &forms);
    let catalogs = e.get_string_values("P528");
    push_property(&mut r, entity_id, "catalog_number", 95, false, &catalogs);
    let instruments = e.get_entity_refs("P870");
    push_property(&mut r, entity_id, "instrumentation", 90, true, &instruments);
    let periods = e.get_entity_refs("P2348");
    push_property(&mut r, entity_id, "period", 85, true, &periods);
    let schools = e.get_entity_refs("P135");
    push_property(&mut r, entity_id, "school", 85, true, &schools);
    proof {
        assert(rows_view(r@) =~~= wikidata_rows(entity_id@, *e));
    }
    r
}

} // verus!
