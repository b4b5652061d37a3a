//! The folksonomy enricher: community tags with popularity counts.
//!
//! The surrounding program fetches top tags for the track and for the
//! artist; this module turns a tag list into assertions. Tags whose
//! count falls below the noise threshold never become assertions; each
//! surviving tag's confidence is its count relative to the largest
//! count in the fetch, in hundredths.

use vstd::prelude::*;

use crate::enrich::{record_row, rows_view, AssertRow};
use crate::provenance::{Assertion, Source};
use crate::value::{FieldScalar, FieldValue, ScalarVal};

verus! {

/// The tag count below which a tag is noise and never asserted.
pub const MIN_TAG_COUNT: u32 = 10;

/// A single folksonomy tag.
#[derive(Debug, PartialEq, Eq)]
pub struct LastFmTag {
    /// The tag's name.
    pub name: String,
    /// How many users applied the tag.
    pub count: u32,
}

impl Clone for LastFmTag {
    /// A copy with the same name and count.
    fn clone(&self) -> (r: Self)
        ensures
            r.name@ == self.name@,
            r.count == self.count,
    {
        LastFmTag { name: self.name.clone(), count: self.count }
    }
}

/// The largest count in a fetch; 1 when the fetch is empty, so that
/// confidence division is defined.
pub open spec fn max_count(tags: Seq<LastFmTag>) -> int
    decreases tags.len(),
{
    if tags.len() == 0 {
        1
    } else {
        let rest = max_count(tags.drop_first());
        if tags[0].count >= rest {
            tags[0].count as int
        } else {
            rest
        }
    }
}

/// Selects tags at or above the noise threshold.
pub open spec fn eligible_pred(min_count: u32) -> spec_fn(LastFmTag) -> bool {
    |t: LastFmTag| t.count >= min_count
}

/// The row a surviving tag becomes: field `tag`, a record of the name,
/// count, and scope, confidence `count * 100 / max`.
pub open spec fn tag_row(
    entity: Seq<char>,
    scope: Seq<char>,
    t: LastFmTag,
    max: int,
) -> AssertRow {
    record_row(
        entity,
        "tag"@,
        seq![
            ("count"@, ScalarVal::Int(t.count as int)),
            ("name"@, ScalarVal::Text(t.name@)),
            ("scope"@, ScalarVal::Text(scope)),
        ],
        Some(t.count * 100 / max),
        Source::LastFm,
    )
}

/// Every row is a surviving tag's row: it came from a tag at or above
/// the noise threshold.
pub open spec fn rows_all_eligible(
    rows: Seq<AssertRow>,
    entity: Seq<char>,
    scope: Seq<char>,
    max: int,
    min_count: u32,
) -> bool {
    forall|k: int|
        #![trigger rows[k]]
        0 <= k < rows.len() ==> exists|t: LastFmTag|
            rows[k] == #[trigger] tag_row(entity, scope, t, max) && t.count >= min_count
}

/// Turn fetched tags into assertions: tags with a count below the noise
/// threshold are dropped — none ever becomes an assertion — and each
/// surviving tag's confidence is its count relative to the fetch's
/// largest, in hundredths.
pub fn tags_to_assertions(
    tags: &Vec<LastFmTag>,
    entity_id: &str,
    scope: &str,
    min_count: u32,
) -> (r: Vec<Assertion>)
    ensures
        rows_view(r@) == tags@.filter(eligible_pred(min_count)).map_values(
            |t: LastFmTag| tag_row(entity_id@, scope@, t, max_count(tags@)),
        ),
        rows_all_eligible(rows_view(r@), entity_id@, scope@, max_count(tags@), min_count),
{
    broadcast use vstd::seq_lib::group_filter_ensures;

    let ghost tv = tags@;
    let mut max: u32 = 1;
    let mut i: usize = 0;
    proof {
        assert(tv.subrange(0, tv.len() as int) =~= tv);
        assert(max_count(tv.subrange(tv.len() as int, tv.len() as int)) == 1);
    }
    while i < tags.len()
        invariant
            tv == tags@,
            i <= tv.len(),
            max as int == spec_suffix_max(tv, tv.len() - i as int),
            max >= 1,
        decreases tv.len() - i,
    {
        proof {
            lemma_suffix_max_step(tv, tv.len() - i as int - 1);
        }
        let idx = tags.len() - 1 - i;
        if tags[idx].count > max {
            max = tags[idx].count;
        }
        i += 1;
    }
    proof {
        lemma_suffix_max_full(tv);
        assert(max as int == max_count(tv));
    }
    let mut r: Vec<Assertion> = Vec::new();
    let mut j: usize = 0;
    proof {
        reveal(Seq::filter);
        assert(tv.subrange(0, 0).filter(eligible_pred(min_count)) =~= Seq::<LastFmTag>::empty());
        assert(rows_view(r@) =~~= tv.subrange(0, 0).filter(eligible_pred(min_count)).map_values(
            |t: LastFmTag| tag_row(entity_id@, scope@, t, max_count(tv)),
        ));
    }
    while j < tags.len()
        invariant
            tv == tags@,
            j <= tv.len(),
            max as int == max_count(tv),
            max >= 1,
            rows_view(r@) =~~= tv.subrange(0, j as int).filter(eligible_pred(min_count)).map_values(
                |t: LastFmTag| tag_row(entity_id@, scope@, t, max_count(tv)),
            ),
        decreases tv.len() - j,
    {
        let ghost pre = tv.subrange(0, j + 1);
        proof {
            reveal(Seq::filter);
            assert(pre.drop_last() =~= tv.subrange(0, j as int));
            assert(pre.last() == tv[j as int]);
        }
        let t = &tags[j];
        if t.count >= min_count {
            let ghost before = rows_view(r@);
            let mut entries: Vec<(String, FieldScalar)> = Vec::new();
            entries.push((String::from_str("count"), FieldScalar::Int(t.count as i64)));
            entries.push((String::from_str("name"), FieldScalar::Text(t.name.clone())));
            entries.push((String::from_str("scope"), FieldScalar::Text(scope.to_owned())));
            proof {
                lemma_suffix_max_bound(tv);
                assert(t.count <= max) by {
                    assert(tv[j as int].count as int <= max_count(tv));
                }
                assert((t.count as int) * 100 / (max as int) <= 100) by (nonlinear_arith)
                    requires
                        t.count as int <= max as int,
                        max as int >= 1,
                ;
                assert((t.count as u64) as int * 100 == (t.count as int) * 100);
            }
            let conf: u32 = ((t.count as u64) * 100 / (max as u64)) as u32;
            proof {
                assert(conf as int == (t.count as int) * 100 / (max as int));
                assert(conf <= 100);
            }
            let a = Assertion::new(
                entity_id,
                "tag",
                FieldValue::Record(entries),
                Source::LastFm,
            ).with_confidence(conf);
            r.push(a);
            proof {
                assert(rows_view(r@) =~~= before.push(
                    tag_row(entity_id@, scope@, tv[j as int], max_count(tv)),
                ));
            }
        }
        proof {
            reveal(Seq::filter);
            assert(rows_view(r@) =~~= pre.filter(eligible_pred(min_count)).map_values(
                |t2: LastFmTag| tag_row(entity_id@, scope@, t2, max_count(tv)),
            ));
        }
        j += 1;
    }
    proof {
        assert(tv.subrange(0, tv.len() as int) =~= tv);
        assert forall|k: int| #![trigger rows_view(r@)[k]]
            0 <= k < rows_view(r@).len() implies exists|t: LastFmTag|
            rows_view(r@)[k] == #[trigger] tag_row(entity_id@, scope@, t, max_count(tv))
                && t.count >= min_count by {
            let f = tv.filter(eligible_pred(min_count));
            tv.lemma_filter_pred(eligible_pred(min_count), k);
            assert(rows_view(r@)[k] == tag_row(entity_id@, scope@, f[k], max_count(tv)));
        }
        assert(rows_all_eligible(rows_view(r@), entity_id@, scope@, max_count(tv), min_count));
    }
    r
}

/// The largest count among the last `n` tags; 1 when none.
pub open spec fn spec_suffix_max(tags: Seq<LastFmTag>, from: int) -> int {
    max_count(tags.subrange(from, tags.len() as int))
}

proof fn lemma_suffix_max_step(tags: Seq<LastFmTag>, from: int)
    requires
        0 <= from < tags.len(),
    ensures
        spec_suffix_max(tags, from) == (if tags[from].count as int >= spec_suffix_max(
            tags,
            from + 1,
        ) {
            tags[from].count as int
        } else {
            spec_suffix_max(tags, from + 1)
        }),
{
    let t = tags.subrange(from, tags.len() as int);
    assert(t[0] == tags[from]);
    assert(t.drop_first() =~= tags.subrange(from + 1, tags.len() as int));
}

proof fn lemma_suffix_max_full(tags: Seq<LastFmTag>)
    ensures
        spec_suffix_max(tags, 0) == max_count(tags),
{
    assert(tags.subrange(0, tags.len() as int) =~= tags);
}

proof fn lemma_suffix_max_bound(tags: Seq<LastFmTag>)
    ensures
        forall|i: int| 0 <= i < tags.len() ==> (#[trigger] tags[i]).count as int <= max_count(tags),
        max_count(tags) >= 1,
    decreases tags.len(),
{
    if tags.len() > 0 {
        lemma_suffix_max_bound(tags.drop_first());
        assert forall|i: int| 0 <= i < tags.len() implies (#[trigger] tags[i]).count as int
            <= max_count(tags) by {
            if i > 0 {
                assert(tags.drop_first()[i - 1] == tags[i]);
            }
        }
    }
}

} // verus!
