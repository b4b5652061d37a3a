//! The harmonize stage: from an item's assertions to proposed tags.
//!
//! Harmonization loads the item's assertions, derives composer and year
//! hints, runs the genre, period, and instrument rules, and concatenates
//! the proposals. Any proposals at all pause the item for review; none
//! complete the stage. No file is written; the proposals travel in the
//! stage's metadata for the review surface.

use vstd::prelude::*;

use crate::provenance::{Assertion, AssertionVal};
use crate::rules::{
    asserts_view, asserts_wf, opt_prop_view, props_view, spec_apply_genre_rules,
    spec_apply_instrument_rules, spec_apply_period_rules, MappingRules, PropVal, ProposedTag,
};
use crate::text::str_eq;
use crate::value::Val;
use crate::workflow::StageOutcome;

verus! {

/// The composer hint: the text of the first `composer` assertion whose
/// value is a plain string.
pub open spec fn composer_hint(asserts: Seq<AssertionVal>) -> Option<Seq<char>>
    decreases asserts.len(),
{
    if asserts.len() == 0 {
        None
    } else if asserts[0].field == "composer"@ && asserts[0].value is Text {
        Some(asserts[0].value->Text_0)
    } else {
        composer_hint(asserts.drop_first())
    }
}

/// The year hint: the value of the first `composed_year` or `year`
/// assertion holding an integer.
pub open spec fn year_hint(asserts: Seq<AssertionVal>) -> Option<int>
    decreases asserts.len(),
{
    if asserts.len() == 0 {
        None
    } else if (asserts[0].field == "composed_year"@ || asserts[0].field == "year"@)
        && asserts[0].value is Int {
        Some(asserts[0].value->Int_0)
    } else {
        year_hint(asserts.drop_first())
    }
}

/// The year hint as the period rules take it: dropped when it does not
/// fit a 32-bit year.
pub open spec fn year_hint_i32(asserts: Seq<AssertionVal>) -> Option<int> {
    match year_hint(asserts) {
        Some(y) => if i32::MIN <= y <= i32::MAX {
            Some(y)
        } else {
            None
        },
        None => None,
    }
}

/// Everything harmonization proposes for an assertion set: the genre
/// proposals, then the period proposal if any, then the instrument
/// proposals.
pub open spec fn spec_harmonize(
    rules: crate::rules::MappingRulesVal,
    asserts: Seq<AssertionVal>,
) -> Seq<PropVal> {
    spec_apply_genre_rules(rules, asserts) + (match spec_apply_period_rules(
        rules.period_rules,
        composer_hint(asserts),
        year_hint_i32(asserts),
    ) {
        Some(p) => seq![p],
        None => Seq::empty(),
    }) + spec_apply_instrument_rules(rules, asserts)
}

/// Find the composer hint.
fn composer_hint_exec(assertions: &Vec<Assertion>) -> (r: Option<String>)
    ensures
        match r {
            Some(c) => Some(c@) == composer_hint(asserts_view(assertions@)),
            None => composer_hint(asserts_view(assertions@)) is None,
        },
{
    let ghost av = asserts_view(assertions@);
    let mut i: usize = 0;
    proof {
        assert(av.subrange(0, av.len() as int) =~= av);
    }
    while i < assertions.len()
        invariant
            av == asserts_view(assertions@),
            i <= av.len(),
            composer_hint(av) == composer_hint(av.subrange(i as int, av.len() as int)),
        decreases av.len() - i,
    {
        proof {
            let tail = av.subrange(i as int, av.len() as int);
            assert(tail[0] == av[i as int]);
            assert(tail.drop_first() =~= av.subrange(i + 1, av.len() as int));
        }
        let a = &assertions[i];
        if str_eq(a.field.as_str(), "composer") {
            match a.value.as_text() {
                Some(t) => {
                    return Some(t.to_owned());
                },
                None => {},
            }
        }
        i += 1;
    }
    proof {
        assert(av.subrange(av.len() as int, av.len() as int).len() == 0);
    }
    None
}

/// Find the year hint.
fn year_hint_exec(assertions: &Vec<Assertion>) -> (r: Option<i32>)
    ensures
        match r {
            Some(y) => Some(y as int) == year_hint_i32(asserts_view(assertions@)),
            None => year_hint_i32(asserts_view(assertions@)) is None,
        },
{
    let ghost av = asserts_view(assertions@);
    let mut i: usize = 0;
    proof {
        assert(av.subrange(0, av.len() as int) =~= av);
    }
    while i < assertions.len()
        invariant
            av == asserts_view(assertions@),
            i <= av.len(),
            year_hint(av) == year_hint(av.subrange(i as int, av.len() as int)),
        decreases av.len() - i,
    {
        proof {
            let tail = av.subrange(i as int, av.len() as int);
            assert(tail[0] == av[i as int]);
            assert(tail.drop_first() =~= av.subrange(i + 1, av.len() as int));
        }
        let a = &assertions[i];
        if str_eq(a.field.as_str(), "composed_year") || str_eq(a.field.as_str(), "year") {
            match a.value.as_int() {
                Some(v) => {
                    if i32::MIN as i64 <= v && v <= i32::MAX as i64 {
                        return Some(v as i32);
                    }
                    return None;
                },
                None => {},
            }
        }
        i += 1;
    }
    proof {
        assert(av.subrange(av.len() as int, av.len() as int).len() == 0);
    }
    None
}

/// Harmonize an item's assertions: run the genre rules, the period
/// rules over the composer and year hints, and the instrument rules,
/// and concatenate the proposals. The stage's outcome pairs with them:
/// complete when nothing was proposed, paused for review otherwise —
/// with or without conflicts, a human confirms proposals.
pub fn harmonize_assertions(rules: &MappingRules, assertions: &Vec<Assertion>) -> (r: (
    Vec<ProposedTag>,
    StageOutcome,
))
    requires
        rules@.wf(),
        asserts_wf(asserts_view(assertions@)),
    ensures
        props_view(r.0@) == spec_harmonize(rules@, asserts_view(assertions@)),
        r.1 == (if spec_harmonize(rules@, asserts_view(assertions@)).len() == 0 {
            StageOutcome::Complete
        } else {
            StageOutcome::NeedsReview
        }),
{
    let ghost av = asserts_view(assertions@);
    let mut all = rules.apply_genre_rules(assertions);
    let ghost genre_part = props_view(all@);
    let composer = composer_hint_exec(assertions);
    let year = year_hint_exec(assertions);
    let period = rules.apply_period_rules(
        match &composer {
            Some(c) => Some(c.as_str()),
            None => None,
        },
        year,
    );
    match period {
        Some(p) => {
            all.push(p);
        },
        None => {},
    }
    let ghost period_part = props_view(all@);
    let instruments = rules.apply_instrument_rules(assertions);
    let mut k: usize = 0;
    while k < instruments.len()
        invariant
            k <= instruments@.len(),
            props_view(all@) =~~= period_part + props_view(instruments@).subrange(0, k as int),
        decreases instruments@.len() - k,
    {
        let ghost before = props_view(all@);
        all.push(instruments[k].clone());
        proof {
            assert(props_view(all@) =~~= before.push(props_view(instruments@)[k as int]));
        }
        k += 1;
    }
    proof {
        assert(props_view(instruments@).subrange(0, instruments@.len() as int) =~= props_view(
            instruments@,
        ));
        assert(props_view(all@) =~~= spec_harmonize(rules@, av));
    }
    let outcome = if all.len() == 0 {
        StageOutcome::Complete
    } else {
        StageOutcome::NeedsReview
    };
    (all, outcome)
}

} // verus!
