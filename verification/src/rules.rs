//! The mapping rules engine.
//!
//! A rules document declares how provenance assertions from the various
//! sources are normalized into canonical genre, form, period, and
//! instrumentation values, and how much authority each source carries.
//! The engine is a pure function of the rules document and the assertion
//! set: its full behaviour is stated as specification functions, and the
//! executable code is proved to compute exactly those.
//!
//! Confidences are held in hundredths throughout (80 stands for 0.8); a
//! combined confidence is the product of the rule's and the assertion's,
//! scaled back down, rounding toward zero.

use vstd::prelude::*;
use vstd::multiset::Multiset;
use vstd::seq_lib::group_seq_properties;

use crate::provenance::{Assertion, AssertionVal, Source};
use crate::text::{
    chars_eq, chars_of, clone_opt_string, contains, contains_seq, lower_chars_of, lower_seq,
    lower_vec, str_eq,
};
use crate::value::render_value;

verus! {

broadcast use group_seq_properties;

/// A rule mapping genre, style, form, or tag assertions to canonical
/// values.
#[derive(Debug, PartialEq)]
pub struct GenreRule {
    /// Human-readable rule name, for traceability.
    pub name: String,
    /// Optional description of what this rule covers.
    pub description: Option<String>,
    /// Match when the assertion value contains any of these, without
    /// regard to case.
    pub match_any: Vec<String>,
    /// Only match assertions from these sources; empty allows all.
    pub match_source: Vec<String>,
    /// Canonical genre to produce.
    pub output_genre: Option<String>,
    /// Canonical form to produce.
    pub output_form: Option<String>,
    /// Genre/form vocabulary label to link; proposed against the `genre`
    /// field.
    pub output_lcgft_label: Option<String>,
    /// Rule confidence in hundredths (0 to 100).
    pub confidence: u32,
}

/// The mathematical value of a [`GenreRule`].
#[verifier::ext_equal]
pub ghost struct GenreRuleVal {
    /// Human-readable rule name.
    pub name: Seq<char>,
    /// Optional description.
    pub description: Option<Seq<char>>,
    /// Case-insensitive substring patterns.
    pub match_any: Seq<Seq<char>>,
    /// Allowed sources; empty allows all.
    pub match_source: Seq<Seq<char>>,
    /// Canonical genre to produce.
    pub output_genre: Option<Seq<char>>,
    /// Canonical form to produce.
    pub output_form: Option<Seq<char>>,
    /// Vocabulary label to link.
    pub output_lcgft_label: Option<Seq<char>>,
    /// Rule confidence in hundredths.
    pub confidence: int,
}

/// The views of a sequence of strings.
pub open spec fn strings_view(v: Seq<String>) -> Seq<Seq<char>> {
    Seq::new(v.len(), |i: int| v[i]@)
}

impl View for GenreRule {
    type V = GenreRuleVal;

    open spec fn view(&self) -> GenreRuleVal {
        GenreRuleVal {
            name: self.name@,
            description: crate::model::opt_view(self.description),
            match_any: strings_view(self.match_any@),
            match_source: strings_view(self.match_source@),
            output_genre: crate::model::opt_view(self.output_genre),
            output_form: crate::model::opt_view(self.output_form),
            output_lcgft_label: crate::model::opt_view(self.output_lcgft_label),
            confidence: self.confidence as int,
        }
    }
}

/// A rule inferring a musical period from a composer name or a
/// composition year.
#[derive(Debug, PartialEq)]
pub struct PeriodRule {
    /// Human-readable rule name, for traceability.
    pub name: String,
    /// Optional description.
    pub description: Option<String>,
    /// Match when the composer name contains any of these, without regard
    /// to case.
    pub match_composer: Vec<String>,
    /// Canonical period to produce.
    pub output_period: String,
    /// Inclusive year range for matching by composition year.
    pub year_range: Option<(i32, i32)>,
}

/// The mathematical value of a [`PeriodRule`].
#[verifier::ext_equal]
pub ghost struct PeriodRuleVal {
    /// Human-readable rule name.
    pub name: Seq<char>,
    /// Optional description.
    pub description: Option<Seq<char>>,
    /// Case-insensitive substring patterns over the composer name.
    pub match_composer: Seq<Seq<char>>,
    /// Canonical period to produce.
    pub output_period: Seq<char>,
    /// Inclusive year range.
    pub year_range: Option<(int, int)>,
}

impl View for PeriodRule {
    type V = PeriodRuleVal;

    open spec fn view(&self) -> PeriodRuleVal {
        PeriodRuleVal {
            name: self.name@,
            description: crate::model::opt_view(self.description),
            match_composer: strings_view(self.match_composer@),
            output_period: self.output_period@,
            year_range: match self.year_range {
                Some((a, b)) => Some((a as int, b as int)),
                None => None,
            },
        }
    }
}

/// A rule mapping instrumentation assertions to canonical instrument
/// names.
#[derive(Debug, PartialEq)]
pub struct InstrumentRule {
    /// Human-readable rule name, for traceability.
    pub name: String,
    /// Optional description.
    pub description: Option<String>,
    /// Match when the assertion value contains any of these, without
    /// regard to case.
    pub match_any: Vec<String>,
    /// Canonical instrument names to produce, one proposal each.
    pub output_instruments: Vec<String>,
    /// Medium-of-performance vocabulary labels to link.
    pub output_lcmpt_labels: Vec<String>,
}

/// The mathematical value of an [`InstrumentRule`].
#[verifier::ext_equal]
pub ghost struct InstrumentRuleVal {
    /// Human-readable rule name.
    pub name: Seq<char>,
    /// Optional description.
    pub description: Option<Seq<char>>,
    /// Case-insensitive substring patterns.
    pub match_any: Seq<Seq<char>>,
    /// Canonical instrument names to produce.
    pub output_instruments: Seq<Seq<char>>,
    /// Vocabulary labels to link.
    pub output_lcmpt_labels: Seq<Seq<char>>,
}

impl View for InstrumentRule {
    type V = InstrumentRuleVal;

    open spec fn view(&self) -> InstrumentRuleVal {
        InstrumentRuleVal {
            name: self.name@,
            description: crate::model::opt_view(self.description),
            match_any: strings_view(self.match_any@),
            output_instruments: strings_view(self.output_instruments@),
            output_lcmpt_labels: strings_view(self.output_lcmpt_labels@),
        }
    }
}

/// The top-level rules document.
#[derive(Debug, PartialEq)]
pub struct MappingRules {
    /// Source name to priority; higher wins. Names are looked up exactly
    /// first, then without regard to case; the first entry wins.
    pub source_priority: Vec<(String, u32)>,
    /// Rules over genre, style, form, and tag assertions.
    pub genre_rules: Vec<GenreRule>,
    /// Rules inferring a period from composer or year.
    pub period_rules: Vec<PeriodRule>,
    /// Rules over instrumentation assertions.
    pub instrument_rules: Vec<InstrumentRule>,
}

/// The mathematical value of a [`MappingRules`] document.
#[verifier::ext_equal]
pub ghost struct MappingRulesVal {
    /// Source name to priority.
    pub source_priority: Seq<(Seq<char>, int)>,
    /// Genre rules, in declaration order.
    pub genre_rules: Seq<GenreRuleVal>,
    /// Period rules, in declaration order.
    pub period_rules: Seq<PeriodRuleVal>,
    /// Instrument rules, in declaration order.
    pub instrument_rules: Seq<InstrumentRuleVal>,
}

impl View for MappingRules {
    type V = MappingRulesVal;

    open spec fn view(&self) -> MappingRulesVal {
        MappingRulesVal {
            source_priority: Seq::new(
                self.source_priority@.len(),
                |i: int| (self.source_priority@[i].0@, self.source_priority@[i].1 as int),
            ),
            genre_rules: Seq::new(self.genre_rules@.len(), |i: int| self.genre_rules@[i]@),
            period_rules: Seq::new(self.period_rules@.len(), |i: int| self.period_rules@[i]@),
            instrument_rules: Seq::new(
                self.instrument_rules@.len(),
                |i: int| self.instrument_rules@[i]@,
            ),
        }
    }
}

impl MappingRulesVal {
    /// Every rule confidence lies between 0 and 100.
    pub open spec fn wf(self) -> bool {
        forall|i: int| 0 <= i < self.genre_rules.len() ==> 0 <= #[trigger] self.genre_rules[i].confidence <= 100
    }
}

/// An alternative that lost conflict resolution to a proposal.
#[derive(Debug, PartialEq)]
pub struct Alternative {
    /// The alternative canonical value.
    pub value: String,
    /// Which source produced this alternative.
    pub source: Source,
    /// Confidence in hundredths.
    pub confidence: u32,
}

/// The mathematical value of an [`Alternative`].
#[verifier::ext_equal]
pub ghost struct AltVal {
    /// The alternative canonical value.
    pub value: Seq<char>,
    /// Which source produced this alternative.
    pub source: Source,
    /// Confidence in hundredths.
    pub confidence: int,
}

impl View for Alternative {
    type V = AltVal;

    open spec fn view(&self) -> AltVal {
        AltVal { value: self.value@, source: self.source, confidence: self.confidence as int }
    }
}

/// A proposed metadata value produced by the rules engine.
#[derive(Debug, PartialEq)]
pub struct ProposedTag {
    /// The metadata field: `genre`, `form`, `period`, or
    /// `instrumentation`.
    pub field: String,
    /// The canonical value proposed by the rule.
    pub value: String,
    /// Which source's assertion triggered this proposal.
    pub source: Source,
    /// The name of the rule that produced this proposal.
    pub rule_name: String,
    /// Combined confidence in hundredths.
    pub confidence: u32,
    /// Alternatives that lost conflict resolution to this proposal.
    pub alternatives: Vec<Alternative>,
}

/// The mathematical value of a [`ProposedTag`].
#[verifier::ext_equal]
pub ghost struct PropVal {
    /// The metadata field.
    pub field: Seq<char>,
    /// The canonical value.
    pub value: Seq<char>,
    /// The winning source.
    pub source: Source,
    /// The producing rule's name.
    pub rule_name: Seq<char>,
    /// Combined confidence in hundredths.
    pub confidence: int,
    /// Losing alternatives, strongest first.
    pub alternatives: Seq<AltVal>,
}

impl View for ProposedTag {
    type V = PropVal;

    open spec fn view(&self) -> PropVal {
        PropVal {
            field: self.field@,
            value: self.value@,
            source: self.source,
            rule_name: self.rule_name@,
            confidence: self.confidence as int,
            alternatives: Seq::new(self.alternatives@.len(), |i: int| self.alternatives@[i]@),
        }
    }
}

/// The views of a sequence of proposals.
pub open spec fn props_view(v: Seq<ProposedTag>) -> Seq<PropVal> {
    Seq::new(v.len(), |i: int| v[i]@)
}

impl Clone for Alternative {
    /// A copy with the same mathematical value.
    fn clone(&self) -> (r: Self)
        ensures
            r@ == self@,
    {
        Alternative {
            value: self.value.clone(),
            source: self.source,
            confidence: self.confidence,
        }
    }
}

impl Clone for ProposedTag {
    /// A copy with the same mathematical value.
    fn clone(&self) -> (r: Self)
        ensures
            r@ == self@,
    {
        let mut alternatives: Vec<Alternative> = Vec::new();
        let mut i: usize = 0;
        while i < self.alternatives.len()
            invariant
                i <= self.alternatives@.len(),
                alternatives@.len() == i,
                forall|k: int| 0 <= k < i ==> alternatives@[k]@ == self.alternatives@[k]@,
            decreases self.alternatives@.len() - i,
        {
            alternatives.push(self.alternatives[i].clone());
            i += 1;
        }
        let r = ProposedTag {
            field: self.field.clone(),
            value: self.value.clone(),
            source: self.source,
            rule_name: self.rule_name.clone(),
            confidence: self.confidence,
            alternatives,
        };
        proof {
            assert(r@.alternatives =~= self@.alternatives);
            assert(r@ =~= self@);
        }
        r
    }
}

// ---------------------------------------------------------------------
// Source names
// ---------------------------------------------------------------------

/// The canonical lowercase name of a source, as used by the rules
/// document.
pub open spec fn spec_source_str(s: Source) -> Seq<char> {
    match s {
        Source::EmbeddedTag => "embedded_tag"@,
        Source::AcoustId => "acoustid"@,
        Source::MusicBrainz => "musicbrainz"@,
        Source::Wikidata => "wikidata"@,
        Source::LastFm => "lastfm"@,
        Source::Lcgft => "lcgft"@,
        Source::Lcmpt => "lcmpt"@,
        Source::Discogs => "discogs"@,
        Source::User => "user"@,
    }
}

/// The source named by a string, without regard to case; `None` when the
/// name is not a canonical source name.
pub open spec fn spec_parse_source(name: Seq<char>) -> Option<Source> {
    let n = lower_seq(name);
    if n == "embedded_tag"@ {
        Some(Source::EmbeddedTag)
    } else if n == "acoustid"@ {
        Some(Source::AcoustId)
    } else if n == "musicbrainz"@ {
        Some(Source::MusicBrainz)
    } else if n == "wikidata"@ {
        Some(Source::Wikidata)
    } else if n == "lastfm"@ {
        Some(Source::LastFm)
    } else if n == "lcgft"@ {
        Some(Source::Lcgft)
    } else if n == "lcmpt"@ {
        Some(Source::Lcmpt)
    } else if n == "discogs"@ {
        Some(Source::Discogs)
    } else if n == "user"@ {
        Some(Source::User)
    } else {
        None
    }
}

/// The canonical string name of a source.
pub fn source_to_str(source: Source) -> (r: &'static str)
    ensures
        r@ == spec_source_str(source),
{
    match source {
        Source::EmbeddedTag => "embedded_tag",
        Source::AcoustId => "acoustid",
        Source::MusicBrainz => "musicbrainz",
        Source::Wikidata => "wikidata",
        Source::LastFm => "lastfm",
        Source::Lcgft => "lcgft",
        Source::Lcmpt => "lcmpt",
        Source::Discogs => "discogs",
        Source::User => "user",
    }
}

/// Parse a string into a source, without regard to case.
pub fn str_to_source(name: &str) -> (r: Option<Source>)
    ensures
        r == spec_parse_source(name@),
{
    let n = lower_chars_of(name);
    if chars_eq(&n, &chars_of("embedded_tag")) {
        Some(Source::EmbeddedTag)
    } else if chars_eq(&n, &chars_of("acoustid")) {
        Some(Source::AcoustId)
    } else if chars_eq(&n, &chars_of("musicbrainz")) {
        Some(Source::MusicBrainz)
    } else if chars_eq(&n, &chars_of("wikidata")) {
        Some(Source::Wikidata)
    } else if chars_eq(&n, &chars_of("lastfm")) {
        Some(Source::LastFm)
    } else if chars_eq(&n, &chars_of("lcgft")) {
        Some(Source::Lcgft)
    } else if chars_eq(&n, &chars_of("lcmpt")) {
        Some(Source::Lcmpt)
    } else if chars_eq(&n, &chars_of("discogs")) {
        Some(Source::Discogs)
    } else if chars_eq(&n, &chars_of("user")) {
        Some(Source::User)
    } else {
        None
    }
}

/// The canonical string name of a source.
pub fn source_name(source: Source) -> (r: &'static str)
    ensures
        r@ == spec_source_str(source),
{
    source_to_str(source)
}

/// Parse a string into a source, without regard to case.
pub fn parse_source(name: &str) -> (r: Option<Source>)
    ensures
        r == spec_parse_source(name@),
{
    str_to_source(name)
}

// ---------------------------------------------------------------------
// Matching helpers
// ---------------------------------------------------------------------

/// An allowed-sources list admits a source name when it is empty or some
/// entry equals the name without regard to case.
pub open spec fn spec_rule_matches_source(match_source: Seq<Seq<char>>, name: Seq<char>) -> bool {
    match_source.len() == 0 || exists|i: int|
        0 <= i < match_source.len() && lower_seq(#[trigger] match_source[i]) == lower_seq(name)
}

/// A pattern list matches a (lowercased) value when it is non-empty and
/// some pattern, lowercased, occurs in the value.
pub open spec fn spec_rule_matches_value(match_any: Seq<Seq<char>>, value_lower: Seq<char>) -> bool {
    match_any.len() > 0 && exists|i: int|
        0 <= i < match_any.len() && contains_seq(value_lower, lower_seq(#[trigger] match_any[i]))
}

/// Whether the allowed-sources list admits the source name; an empty list
/// admits every source.
pub fn rule_matches_source(match_source: &Vec<String>, source_name: &str) -> (r: bool)
    ensures
        r == spec_rule_matches_source(strings_view(match_source@), source_name@),
{
    if match_source.len() == 0 {
        return true;
    }
    let name_lower = lower_chars_of(source_name);
    let mut i: usize = 0;
    while i < match_source.len()
        invariant
            name_lower@ == lower_seq(source_name@),
            i <= match_source@.len(),
            forall|k: int|
                0 <= k < i ==> lower_seq(#[trigger] strings_view(match_source@)[k]) != lower_seq(
                    source_name@,
                ),
        decreases match_source@.len() - i,
    {
        let entry_lower = lower_chars_of(match_source[i].as_str());
        if chars_eq(&entry_lower, &name_lower) {
            proof {
                assert(lower_seq(strings_view(match_source@)[i as int]) == lower_seq(
                    source_name@,
                ));
            }
            return true;
        }
        i += 1;
    }
    false
}

/// Whether any pattern occurs in the already-lowercased value; an empty
/// pattern list never matches.
pub fn rule_matches_value(match_any: &Vec<String>, value_lower: &str) -> (r: bool)
    ensures
        r == spec_rule_matches_value(strings_view(match_any@), value_lower@),
{
    let value_chars = chars_of(value_lower);
    matches_value_chars(match_any, &value_chars)
}

/// Whether any pattern occurs in the already-lowercased value, given as
/// characters; an empty pattern list never matches.
fn matches_value_chars(match_any: &Vec<String>, value_lower: &Vec<char>) -> (r: bool)
    ensures
        r == spec_rule_matches_value(strings_view(match_any@), value_lower@),
{
    if match_any.len() == 0 {
        return false;
    }
    let mut i: usize = 0;
    while i < match_any.len()
        invariant
            i <= match_any@.len(),
            forall|k: int|
                0 <= k < i ==> !contains_seq(
                    value_lower@,
                    lower_seq(#[trigger] strings_view(match_any@)[k]),
                ),
        decreases match_any@.len() - i,
    {
        let pat_lower = lower_chars_of(match_any[i].as_str());
        if contains(value_lower, &pat_lower) {
            proof {
                assert(contains_seq(value_lower@, lower_seq(strings_view(match_any@)[i as int])));
            }
            return true;
        }
        i += 1;
    }
    false
}

// ---------------------------------------------------------------------
// Source priorities
// ---------------------------------------------------------------------

/// The priority of the first entry whose name equals `name` exactly.
pub open spec fn find_exact(sp: Seq<(Seq<char>, int)>, name: Seq<char>) -> Option<int>
    decreases sp.len(),
{
    if sp.len() == 0 {
        None
    } else if sp[0].0 == name {
        Some(sp[0].1)
    } else {
        find_exact(sp.drop_first(), name)
    }
}

/// The priority of the first entry whose name equals `name` without
/// regard to case.
pub open spec fn find_ci(sp: Seq<(Seq<char>, int)>, name: Seq<char>) -> Option<int>
    decreases sp.len(),
{
    if sp.len() == 0 {
        None
    } else if lower_seq(sp[0].0) == lower_seq(name) {
        Some(sp[0].1)
    } else {
        find_ci(sp.drop_first(), name)
    }
}

/// The declared priority of a source name: an exact entry wins, then an
/// entry equal without regard to case; an unknown name has priority 0.
pub open spec fn spec_priority_for(sp: Seq<(Seq<char>, int)>, name: Seq<char>) -> int {
    match find_exact(sp, name) {
        Some(p) => p,
        None => match find_ci(sp, name) {
            Some(p) => p,
            None => 0,
        },
    }
}

/// The declared priority of a source, by its canonical name.
pub open spec fn spec_priority_of_source(sp: Seq<(Seq<char>, int)>, s: Source) -> int {
    spec_priority_for(sp, spec_source_str(s))
}

impl MappingRules {
    /// The declared priority for a source name; 0 when the name is
    /// unknown.
    pub fn priority_for(&self, source: &str) -> (r: u32)
        ensures
            r as int == spec_priority_for(self@.source_priority, source@),
    {
        let ghost sp = self@.source_priority;
        proof {
            assert(sp.subrange(0, sp.len() as int) =~= sp);
        }
        let mut i: usize = 0;
        while i < self.source_priority.len()
            invariant
                sp == self@.source_priority,
                i <= sp.len(),
                find_exact(sp, source@) == find_exact(sp.subrange(i as int, sp.len() as int), source@),
            decreases sp.len() - i,
        {
            proof {
                let tail = sp.subrange(i as int, sp.len() as int);
                assert(tail[0] == sp[i as int]);
                assert(tail.drop_first() =~= sp.subrange(i + 1, sp.len() as int));
            }
            if str_eq(self.source_priority[i].0.as_str(), source) {
                return self.source_priority[i].1;
            }
            i += 1;
        }
        proof {
            assert(sp.subrange(sp.len() as int, sp.len() as int).len() == 0);
        }
        let source_lower = lower_chars_of(source);
        proof {
            assert(sp.subrange(0, sp.len() as int) =~= sp);
        }
        let mut j: usize = 0;
        while j < self.source_priority.len()
            invariant
                sp == self@.source_priority,
                source_lower@ == lower_seq(source@),
                find_exact(sp, source@) is None,
                j <= sp.len(),
                find_ci(sp, source@) == find_ci(sp.subrange(j as int, sp.len() as int), source@),
            decreases sp.len() - j,
        {
            proof {
                let tail = sp.subrange(j as int, sp.len() as int);
                assert(tail[0] == sp[j as int]);
                assert(tail.drop_first() =~= sp.subrange(j + 1, sp.len() as int));
            }
            let entry_lower = lower_chars_of(self.source_priority[j].0.as_str());
            if chars_eq(&entry_lower, &source_lower) {
                return self.source_priority[j].1;
            }
            j += 1;
        }
        proof {
            assert(sp.subrange(sp.len() as int, sp.len() as int).len() == 0);
        }
        0
    }

    /// The declared priority of a source, by its canonical name.
    pub fn priority_of_source(&self, s: Source) -> (r: u32)
        ensures
            r as int == spec_priority_of_source(self@.source_priority, s),
    {
        self.priority_for(source_to_str(s))
    }
}

// ---------------------------------------------------------------------
// Period rules
// ---------------------------------------------------------------------

/// The view of an optional proposal.
pub open spec fn opt_prop_view(r: Option<ProposedTag>) -> Option<PropVal> {
    match r {
        Some(p) => Some(p@),
        None => None,
    }
}

/// The view of an optional string slice.
pub open spec fn opt_str_view(s: Option<&str>) -> Option<Seq<char>> {
    match s {
        Some(t) => Some(t@),
        None => None,
    }
}

/// The view of an optional year.
pub open spec fn opt_year_view(y: Option<i32>) -> Option<int> {
    match y {
        Some(v) => Some(v as int),
        None => None,
    }
}

/// A period proposal: field `period`, attributed to the encyclopedic
/// source, with no alternatives.
pub open spec fn period_prop(rule: PeriodRuleVal, confidence: int) -> PropVal {
    PropVal {
        field: "period"@,
        value: rule.output_period,
        source: Source::Wikidata,
        rule_name: rule.name,
        confidence: confidence,
        alternatives: Seq::empty(),
    }
}

/// The first rule with composer patterns, one of which occurs in the
/// lowercased composer name; its proposal carries confidence 90.
pub open spec fn composer_period_match(rules: Seq<PeriodRuleVal>, composer_lower: Seq<char>)
    -> Option<PropVal>
    decreases rules.len(),
{
    if rules.len() == 0 {
        None
    } else if rules[0].match_composer.len() > 0 && (exists|i: int|
        0 <= i < rules[0].match_composer.len() && contains_seq(
            composer_lower,
            lower_seq(#[trigger] rules[0].match_composer[i]),
        )) {
        Some(period_prop(rules[0], 90))
    } else {
        composer_period_match(rules.drop_first(), composer_lower)
    }
}

/// The first rule whose year range contains the year, both endpoints
/// inclusive; its proposal carries confidence 70.
pub open spec fn year_period_match(rules: Seq<PeriodRuleVal>, year: int) -> Option<PropVal>
    decreases rules.len(),
{
    if rules.len() == 0 {
        None
    } else if rules[0].year_range matches Some((start, end)) && start <= year <= end {
        Some(period_prop(rules[0], 70))
    } else {
        year_period_match(rules.drop_first(), year)
    }
}

/// The period proposal for a composer and/or year: a composer match takes
/// priority over a year match.
pub open spec fn spec_apply_period_rules(
    rules: Seq<PeriodRuleVal>,
    composer: Option<Seq<char>>,
    year: Option<int>,
) -> Option<PropVal> {
    let by_year = match year {
        Some(y) => year_period_match(rules, y),
        None => None,
    };
    match composer {
        Some(c) => match composer_period_match(rules, lower_seq(c)) {
            Some(p) => Some(p),
            None => by_year,
        },
        None => by_year,
    }
}

impl MappingRules {
    /// Infer the musical period from a composer name and/or composition
    /// year.
    ///
    /// Composer matching is tried first over every rule (case-insensitive
    /// substring, confidence 90); failing that, the first rule whose year
    /// range contains the year wins (both endpoints inclusive, confidence
    /// 70).
    pub fn apply_period_rules(&self, composer: Option<&str>, year: Option<i32>) -> (r: Option<
        ProposedTag,
    >)
        ensures
            opt_prop_view(r) == spec_apply_period_rules(
                self@.period_rules,
                opt_str_view(composer),
                opt_year_view(year),
            ),
    {
        let ghost rv = self@.period_rules;
        if let Some(c) = composer {
            let composer_lower = lower_chars_of(c);
            proof {
                assert(rv.subrange(0, rv.len() as int) =~= rv);
            }
            let mut i: usize = 0;
            while i < self.period_rules.len()
                invariant
                    rv == self@.period_rules,
                    composer == Some(c),
                    composer_lower@ == lower_seq(c@),
                    i <= rv.len(),
                    composer_period_match(rv, lower_seq(c@)) == composer_period_match(
                        rv.subrange(i as int, rv.len() as int),
                        lower_seq(c@),
                    ),
                decreases rv.len() - i,
            {
                proof {
                    let tail = rv.subrange(i as int, rv.len() as int);
                    assert(tail[0] == rv[i as int]);
                    assert(tail.drop_first() =~= rv.subrange(i + 1, rv.len() as int));
                }
                let rule = &self.period_rules[i];
                if rule.match_composer.len() > 0 {
                    let mut j: usize = 0;
                    let mut matched = false;
                    while j < rule.match_composer.len()
                        invariant
                            rv == self@.period_rules,
                            rule == self.period_rules@[i as int],
                            i < rv.len(),
                            composer_lower@ == lower_seq(c@),
                            j <= rule.match_composer@.len(),
                            matched ==> (exists|k: int|
                                0 <= k < rv[i as int].match_composer.len() && contains_seq(
                                    lower_seq(c@),
                                    lower_seq(#[trigger] rv[i as int].match_composer[k]),
                                )),
                            !matched ==> forall|k: int|
                                0 <= k < j ==> !contains_seq(
                                    lower_seq(c@),
                                    lower_seq(#[trigger] rv[i as int].match_composer[k]),
                                ),
                            matched ==> j == rule.match_composer@.len(),
                        decreases rule.match_composer@.len() - j,
                    {
                        let pat_lower = lower_chars_of(rule.match_composer[j].as_str());
                        if contains(&composer_lower, &pat_lower) {
                            proof {
                                assert(contains_seq(
                                    lower_seq(c@),
                                    lower_seq(rv[i as int].match_composer[j as int]),
                                ));
                            }
                            matched = true;
                            j = rule.match_composer.len();
                        } else {
                            j += 1;
                        }
                    }
                    if matched {
                        let p = ProposedTag {
                            field: String::from_str("period"),
                            value: rule.output_period.clone(),
                            source: Source::Wikidata,
                            rule_name: rule.name.clone(),
                            confidence: 90,
                            alternatives: Vec::new(),
                        };
                        proof {
                            assert(p@ =~= period_prop(rv[i as int], 90));
                            let tail = rv.subrange(i as int, rv.len() as int);
                            assert(tail[0] == rv[i as int]);
                            assert(tail[0].match_composer.len() > 0);
                            assert(exists|k: int|
                                0 <= k < tail[0].match_composer.len() && contains_seq(
                                    lower_seq(c@),
                                    lower_seq(#[trigger] tail[0].match_composer[k]),
                                ));
                            assert(composer_period_match(tail, lower_seq(c@)) == Some(
                                period_prop(tail[0], 90),
                            ));
                            assert(composer_period_match(rv, lower_seq(c@)) == Some(p@));
                        }
                        return Some(p);
                    }
                }
                i += 1;
            }
            proof {
                assert(rv.subrange(rv.len() as int, rv.len() as int).len() == 0);
            }
        }
        if let Some(y) = year {
            proof {
                assert(rv.subrange(0, rv.len() as int) =~= rv);
            }
            let mut i: usize = 0;
            while i < self.period_rules.len()
                invariant
                    rv == self@.period_rules,
                    year == Some(y),
                    match composer {
                        Some(cc) => composer_period_match(rv, lower_seq(cc@)) is None,
                        None => true,
                    },
                    i <= rv.len(),
                    year_period_match(rv, y as int) == year_period_match(
                        rv.subrange(i as int, rv.len() as int),
                        y as int,
                    ),
                decreases rv.len() - i,
            {
                proof {
                    let tail = rv.subrange(i as int, rv.len() as int);
                    assert(tail[0] == rv[i as int]);
                    assert(tail.drop_first() =~= rv.subrange(i + 1, rv.len() as int));
                }
                let rule = &self.period_rules[i];
                if let Some((start, end)) = rule.year_range {
                    if start <= y && y <= end {
                        let p = ProposedTag {
                            field: String::from_str("period"),
                            value: rule.output_period.clone(),
                            source: Source::Wikidata,
                            rule_name: rule.name.clone(),
                            confidence: 70,
                            alternatives: Vec::new(),
                        };
                        proof {
                            assert(p@ =~= period_prop(rv[i as int], 70));
                            let tail = rv.subrange(i as int, rv.len() as int);
                            assert(tail[0] == rv[i as int]);
                            assert(tail[0].year_range matches Some((s, e)) && s <= y as int <= e);
                            assert(year_period_match(tail, y as int) == Some(
                                period_prop(tail[0], 70),
                            ));
                        }
                        return Some(p);
                    }
                }
                i += 1;
            }
            proof {
                assert(rv.subrange(rv.len() as int, rv.len() as int).len() == 0);
            }
        }
        None
    }
}

// ---------------------------------------------------------------------
// Raw proposals from genre and instrument rules
// ---------------------------------------------------------------------

/// The views of a sequence of assertions.
pub open spec fn asserts_view(v: Seq<Assertion>) -> Seq<AssertionVal> {
    Seq::new(v.len(), |i: int| v[i]@)
}

/// Every assertion in the sequence is well formed.
pub open spec fn asserts_wf(s: Seq<AssertionVal>) -> bool {
    forall|i: int| 0 <= i < s.len() ==> (#[trigger] s[i]).wf()
}

/// The product of a rule's confidence and an assertion's, in hundredths;
/// an absent assertion confidence counts as 100.
pub open spec fn combined_confidence(rule_conf: int, a_conf: Option<int>) -> int {
    match a_conf {
        Some(c) => rule_conf * c / 100,
        None => rule_conf,
    }
}

/// Whether an assertion is relevant to genre rules.
pub open spec fn genre_relevant(a: AssertionVal) -> bool {
    a.field == "genre"@ || a.field == "style"@ || a.field == "form"@ || a.field == "tag"@
}

/// Whether an assertion is relevant to instrument rules.
pub open spec fn instrument_relevant(a: AssertionVal) -> bool {
    a.field == "instrumentation"@ || a.field == "instrument"@ || a.field == "ensemble"@
}

/// A fresh proposal with no alternatives.
pub open spec fn fresh_prop(
    field: Seq<char>,
    value: Seq<char>,
    source: Source,
    rule_name: Seq<char>,
    confidence: int,
) -> PropVal {
    PropVal {
        field: field,
        value: value,
        source: source,
        rule_name: rule_name,
        confidence: confidence,
        alternatives: Seq::empty(),
    }
}

/// The proposals one genre rule emits for one assertion: nothing unless
/// the rule's source filter admits the assertion's source and a pattern
/// occurs in the value's lowercased text; otherwise one proposal per
/// present output, in the order genre, form, vocabulary label (the label
/// proposed against the `genre` field).
pub open spec fn genre_rule_outputs(rule: GenreRuleVal, a: AssertionVal) -> Seq<PropVal> {
    if spec_rule_matches_source(rule.match_source, spec_source_str(a.source))
        && spec_rule_matches_value(rule.match_any, lower_seq(render_value(a.value))) {
        let conf = combined_confidence(rule.confidence, a.confidence);
        (match rule.output_genre {
            Some(g) => seq![fresh_prop("genre"@, g, a.source, rule.name, conf)],
            None => Seq::empty(),
        }) + (match rule.output_form {
            Some(f) => seq![fresh_prop("form"@, f, a.source, rule.name, conf)],
            None => Seq::empty(),
        }) + (match rule.output_lcgft_label {
            Some(l) => seq![fresh_prop("genre"@, l, a.source, rule.name, conf)],
            None => Seq::empty(),
        })
    } else {
        Seq::empty()
    }
}

/// The proposals every genre rule emits for one assertion, in rule order.
pub open spec fn genre_rules_outputs(rules: Seq<GenreRuleVal>, a: AssertionVal) -> Seq<PropVal>
    decreases rules.len(),
{
    if rules.len() == 0 {
        Seq::empty()
    } else {
        genre_rule_outputs(rules[0], a) + genre_rules_outputs(rules.drop_first(), a)
    }
}

/// The raw genre proposals for an assertion set: relevant assertions in
/// order, each against every rule in order.
pub open spec fn raw_genre_props(rules: Seq<GenreRuleVal>, asserts: Seq<AssertionVal>) -> Seq<
    PropVal,
>
    decreases asserts.len(),
{
    if asserts.len() == 0 {
        Seq::empty()
    } else {
        (if genre_relevant(asserts[0]) {
            genre_rules_outputs(rules, asserts[0])
        } else {
            Seq::empty()
        }) + raw_genre_props(rules, asserts.drop_first())
    }
}

/// The proposals one instrument rule emits for one assertion: nothing
/// unless a pattern occurs in the value's lowercased text; otherwise one
/// `instrumentation` proposal per output instrument, with a fixed rule
/// confidence of 80.
pub open spec fn instrument_rule_outputs(rule: InstrumentRuleVal, a: AssertionVal) -> Seq<PropVal> {
    if spec_rule_matches_value(rule.match_any, lower_seq(render_value(a.value))) {
        let conf = combined_confidence(80, a.confidence);
        Seq::new(
            rule.output_instruments.len(),
            |i: int| fresh_prop("instrumentation"@, rule.output_instruments[i], a.source, rule.name, conf),
        )
    } else {
        Seq::empty()
    }
}

/// The proposals every instrument rule emits for one assertion, in rule
/// order.
pub open spec fn instrument_rules_outputs(rules: Seq<InstrumentRuleVal>, a: AssertionVal) -> Seq<
    PropVal,
>
    decreases rules.len(),
{
    if rules.len() == 0 {
        Seq::empty()
    } else {
        instrument_rule_outputs(rules[0], a) + instrument_rules_outputs(rules.drop_first(), a)
    }
}

/// The raw instrument proposals for an assertion set.
pub open spec fn raw_instrument_props(
    rules: Seq<InstrumentRuleVal>,
    asserts: Seq<AssertionVal>,
) -> Seq<PropVal>
    decreases asserts.len(),
{
    if asserts.len() == 0 {
        Seq::empty()
    } else {
        (if instrument_relevant(asserts[0]) {
            instrument_rules_outputs(rules, asserts[0])
        } else {
            Seq::empty()
        }) + raw_instrument_props(rules, asserts.drop_first())
    }
}

// ---------------------------------------------------------------------
// Conflict resolution
// ---------------------------------------------------------------------

/// Two proposals conflict when they propose the same value for the same
/// field.
pub open spec fn same_group(p: PropVal, q: PropVal) -> bool {
    p.field == q.field && p.value == q.value
}

/// Membership in the conflict group of `k`.
pub open spec fn in_group(k: PropVal) -> spec_fn(PropVal) -> bool {
    |q: PropVal| same_group(k, q)
}

/// Exclusion from the conflict group of `k`.
pub open spec fn out_of_group(k: PropVal) -> spec_fn(PropVal) -> bool {
    |q: PropVal| !same_group(k, q)
}

/// `p` beats `q`: a higher declared source priority wins; on equal
/// priority a higher confidence wins.
pub open spec fn better(sp: Seq<(Seq<char>, int)>, p: PropVal, q: PropVal) -> bool {
    let pp = spec_priority_of_source(sp, p.source);
    let pq = spec_priority_of_source(sp, q.source);
    pp > pq || (pp == pq && p.confidence > q.confidence)
}

/// The index of the first proposal in the group that no other beats.
pub open spec fn best_idx(sp: Seq<(Seq<char>, int)>, g: Seq<PropVal>) -> int
    recommends
        g.len() > 0,
    decreases g.len(),
{
    if g.len() <= 1 {
        0
    } else {
        let b = best_idx(sp, g.drop_last());
        if better(sp, g.last(), g[b]) {
            g.len() - 1
        } else {
            b
        }
    }
}

/// The best index lies inside the group.
pub proof fn lemma_best_idx_range(sp: Seq<(Seq<char>, int)>, g: Seq<PropVal>)
    requires
        g.len() > 0,
    ensures
        0 <= best_idx(sp, g) < g.len(),
    decreases g.len(),
{
    if g.len() > 1 {
        lemma_best_idx_range(sp, g.drop_last());
    }
}

/// The group ordered strongest first: repeatedly extract the first
/// proposal that no other remaining one beats. The order is total and
/// deterministic; proposals that tie keep their original order.
pub open spec fn sel_sort(sp: Seq<(Seq<char>, int)>, g: Seq<PropVal>) -> Seq<PropVal>
    decreases g.len(),
    via sel_sort_decreases
{
    if g.len() == 0 {
        Seq::empty()
    } else {
        let b = best_idx(sp, g);
        seq![g[b]] + sel_sort(sp, g.remove(b))
    }
}

#[via_fn]
proof fn sel_sort_decreases(sp: Seq<(Seq<char>, int)>, g: Seq<PropVal>) {
    if g.len() > 0 {
        lemma_best_idx_range(sp, g);
    }
}

/// The strongest proposal of a non-empty group, carrying every other
/// member as an alternative, strongest first.
pub open spec fn winner_of(sp: Seq<(Seq<char>, int)>, g: Seq<PropVal>) -> PropVal
    recommends
        g.len() > 0,
{
    let s = sel_sort(sp, g);
    PropVal {
        alternatives: Seq::new(
            (s.len() - 1) as nat,
            |i: int| AltVal {
                value: s[i + 1].value,
                source: s[i + 1].source,
                confidence: s[i + 1].confidence,
            },
        ),
        ..s[0]
    }
}

/// Group raw proposals by (field, value), in order of first appearance,
/// and reduce each group to its winner with the losers attached as
/// alternatives.
pub open spec fn spec_dedup(sp: Seq<(Seq<char>, int)>, raw: Seq<PropVal>) -> Seq<PropVal>
    decreases raw.len(),
    via spec_dedup_decreases
{
    if raw.len() == 0 {
        Seq::empty()
    } else {
        seq![winner_of(sp, raw.filter(in_group(raw[0])))] + spec_dedup(
            sp,
            raw.drop_first().filter(out_of_group(raw[0])),
        )
    }
}

#[via_fn]
proof fn spec_dedup_decreases(sp: Seq<(Seq<char>, int)>, raw: Seq<PropVal>) {
    if raw.len() > 0 {
        raw.drop_first().lemma_filter_len(out_of_group(raw[0]));
    }
}

/// The full genre pass: raw proposals, then conflict resolution.
pub open spec fn spec_apply_genre_rules(rules: MappingRulesVal, asserts: Seq<AssertionVal>) -> Seq<
    PropVal,
> {
    spec_dedup(rules.source_priority, raw_genre_props(rules.genre_rules, asserts))
}

/// The full instrument pass: raw proposals, then conflict resolution.
pub open spec fn spec_apply_instrument_rules(
    rules: MappingRulesVal,
    asserts: Seq<AssertionVal>,
) -> Seq<PropVal> {
    spec_dedup(rules.source_priority, raw_instrument_props(rules.instrument_rules, asserts))
}

/// Whether `p` beats `q` under the declared priorities.
fn better_exec(rules: &MappingRules, p: &ProposedTag, q: &ProposedTag) -> (r: bool)
    ensures
        r == better(rules@.source_priority, p@, q@),
{
    let pp = rules.priority_of_source(p.source);
    let pq = rules.priority_of_source(q.source);
    pp > pq || (pp == pq && p.confidence > q.confidence)
}

/// Order a conflict group strongest first.
fn sel_sort_exec(rules: &MappingRules, g: Vec<ProposedTag>) -> (r: Vec<ProposedTag>)
    ensures
        props_view(r@) == sel_sort(rules@.source_priority, props_view(g@)),
    decreases g@.len(),
{
    let ghost sp = rules@.source_priority;
    let ghost gv = props_view(g@);
    if g.len() == 0 {
        let r: Vec<ProposedTag> = Vec::new();
        proof {
            assert(props_view(r@) =~= sel_sort(sp, gv));
        }
        return r;
    }
    let mut b: usize = 0;
    let mut j: usize = 1;
    proof {
        assert(gv.subrange(0, 1) =~= seq![gv[0]]);
    }
    while j < g.len()
        invariant
            sp == rules@.source_priority,
            gv == props_view(g@),
            g@.len() > 0,
            1 <= j <= gv.len(),
            b < j,
            b as int == best_idx(sp, gv.subrange(0, j as int)),
        decreases gv.len() - j,
    {
        proof {
            let pre = gv.subrange(0, j + 1);
            assert(pre.drop_last() =~= gv.subrange(0, j as int));
            assert(pre.last() == gv[j as int]);
            lemma_best_idx_range(sp, gv.subrange(0, j as int));
        }
        if better_exec(rules, &g[j], &g[b]) {
            b = j;
        }
        j += 1;
    }
    proof {
        assert(gv.subrange(0, gv.len() as int) =~= gv);
        lemma_best_idx_range(sp, gv);
    }
    let mut g = g;
    let first = g.remove(b);
    proof {
        assert(props_view(g@) =~= gv.remove(b as int));
    }
    let rest = sel_sort_exec(rules, g);
    let mut out: Vec<ProposedTag> = Vec::new();
    out.push(first);
    let mut i: usize = 0;
    while i < rest.len()
        invariant
            out@.len() == 1 + i,
            i <= rest@.len(),
            out@[0]@ == gv[best_idx(sp, gv)],
            forall|k: int| 0 <= k < i ==> out@[k + 1]@ == rest@[k]@,
        decreases rest@.len() - i,
    {
        out.push(rest[i].clone());
        i += 1;
    }
    proof {
        assert(props_view(out@) =~= seq![gv[best_idx(sp, gv)]] + sel_sort(sp, gv.remove(best_idx(sp, gv))));
    }
    out
}

/// Resolve conflicts among raw proposals: group by (field, value) in
/// order of first appearance; the strongest member of each group wins and
/// the rest become its alternatives.
fn dedup_proposals(rules: &MappingRules, raw: Vec<ProposedTag>) -> (r: Vec<ProposedTag>)
    ensures
        props_view(r@) == spec_dedup(rules@.source_priority, props_view(raw@)),
    decreases raw@.len(),
{
    broadcast use vstd::seq_lib::group_filter_ensures;

    let ghost sp = rules@.source_priority;
    let ghost rawv = props_view(raw@);
    if raw.len() == 0 {
        let r: Vec<ProposedTag> = Vec::new();
        proof {
            assert(props_view(r@) =~= spec_dedup(sp, rawv));
        }
        return r;
    }
    let ghost key = rawv[0];
    let key_field = raw[0].field.clone();
    let key_value = raw[0].value.clone();
    let mut group: Vec<ProposedTag> = Vec::new();
    let mut rest: Vec<ProposedTag> = Vec::new();
    let mut i: usize = 0;
    proof {
        reveal(Seq::filter);
        assert(rawv.subrange(0, 0).filter(in_group(key)) =~= Seq::<PropVal>::empty());
        assert(rawv.subrange(1, 1).filter(out_of_group(key)) =~= Seq::<PropVal>::empty());
    }
    while i < raw.len()
        invariant
            sp == rules@.source_priority,
            rawv == props_view(raw@),
            rawv.len() > 0,
            key == rawv[0],
            key_field@ == key.field,
            key_value@ == key.value,
            i <= rawv.len(),
            props_view(group@) == rawv.subrange(0, i as int).filter(in_group(key)),
            props_view(rest@) == rawv.subrange(1, if i < 1 { 1int } else { i as int }).filter(
                out_of_group(key),
            ),
        decreases rawv.len() - i,
    {
        let p = &raw[i];
        let ghost old_group = props_view(group@);
        let ghost old_rest = props_view(rest@);
        let matches_key = str_eq(p.field.as_str(), key_field.as_str()) && str_eq(
            p.value.as_str(),
            key_value.as_str(),
        );
        if matches_key {
            group.push(p.clone());
        } else {
            rest.push(p.clone());
        }
        proof {
            reveal(Seq::filter);
            let pre = rawv.subrange(0, i + 1);
            assert(pre.drop_last() =~= rawv.subrange(0, i as int));
            assert(pre.last() == rawv[i as int]);
            assert(same_group(key, rawv[i as int]) == matches_key);
            if matches_key {
                assert(props_view(group@) =~= old_group.push(rawv[i as int]));
                assert(props_view(group@) =~= pre.filter(in_group(key)));
                if i >= 1 {
                    let pre2 = rawv.subrange(1, i + 1);
                    assert(pre2.drop_last() =~= rawv.subrange(1, i as int));
                    assert(pre2.last() == rawv[i as int]);
                    assert(props_view(rest@) =~= pre2.filter(out_of_group(key)));
                }
            } else {
                assert(i >= 1);
                let pre2 = rawv.subrange(1, i + 1);
                assert(pre2.drop_last() =~= rawv.subrange(1, i as int));
                assert(pre2.last() == rawv[i as int]);
                assert(props_view(rest@) =~= old_rest.push(rawv[i as int]));
                assert(props_view(rest@) =~= pre2.filter(out_of_group(key)));
                assert(props_view(group@) =~= pre.filter(in_group(key)));
            }
        }
        i += 1;
    }
    proof {
        assert(rawv.subrange(0, rawv.len() as int) =~= rawv);
        assert(rawv.subrange(1, rawv.len() as int) =~= rawv.drop_first());
        assert(same_group(key, key));
        reveal(Seq::filter);
        rawv.lemma_filter_contains(in_group(key), 0);
        assert(rawv.filter(in_group(key)).len() > 0) by {
            assert(rawv.filter(in_group(key)).contains(rawv[0]));
        }
        rawv.drop_first().lemma_filter_len(out_of_group(key));
    }
    let sorted = sel_sort_exec(rules, group);
    let ghost sortedv = sel_sort(sp, rawv.filter(in_group(key)));
    proof {
        assert(props_view(sorted@) == sortedv);
        if sortedv.len() == 0 {
            assert(rawv.filter(in_group(key)).len() > 0);
            lemma_best_idx_range(sp, rawv.filter(in_group(key)));
            assert(false);
        }
    }
    let mut alternatives: Vec<Alternative> = Vec::new();
    let mut j: usize = 1;
    while j < sorted.len()
        invariant
            sortedv == props_view(sorted@),
            1 <= j <= sortedv.len() || (sortedv.len() == 0 && j == 1),
            alternatives@.len() == j - 1,
            forall|k: int|
                0 <= k < j - 1 ==> alternatives@[k]@ == (AltVal {
                    value: sortedv[k + 1].value,
                    source: sortedv[k + 1].source,
                    confidence: sortedv[k + 1].confidence,
                }),
        decreases sortedv.len() - j,
    {
        let alt = Alternative {
            value: sorted[j].value.clone(),
            source: sorted[j].source,
            confidence: sorted[j].confidence,
        };
        alternatives.push(alt);
        j += 1;
    }
    let winner = ProposedTag {
        field: sorted[0].field.clone(),
        value: sorted[0].value.clone(),
        source: sorted[0].source,
        rule_name: sorted[0].rule_name.clone(),
        confidence: sorted[0].confidence,
        alternatives,
    };
    proof {
        assert(winner@ =~= winner_of(sp, rawv.filter(in_group(key))));
    }
    let deduped_rest = dedup_proposals(rules, rest);
    let mut out: Vec<ProposedTag> = Vec::new();
    out.push(winner);
    let mut k: usize = 0;
    while k < deduped_rest.len()
        invariant
            out@.len() == 1 + k,
            k <= deduped_rest@.len(),
            out@[0]@ == winner_of(sp, rawv.filter(in_group(key))),
            forall|m: int| 0 <= m < k ==> out@[m + 1]@ == deduped_rest@[m]@,
        decreases deduped_rest@.len() - k,
    {
        out.push(deduped_rest[k].clone());
        k += 1;
    }
    proof {
        assert(props_view(out@) =~= seq![winner_of(sp, rawv.filter(in_group(key)))] + spec_dedup(
            sp,
            rawv.drop_first().filter(out_of_group(key)),
        ));
    }
    out
}

/// Whether an assertion's field makes it relevant to genre rules.
fn is_genre_relevant(a: &Assertion) -> (r: bool)
    ensures
        r == genre_relevant(a@),
{
    str_eq(a.field.as_str(), "genre") || str_eq(a.field.as_str(), "style") || str_eq(
        a.field.as_str(),
        "form",
    ) || str_eq(a.field.as_str(), "tag")
}

/// Whether an assertion's field makes it relevant to instrument rules.
fn is_instrument_relevant(a: &Assertion) -> (r: bool)
    ensures
        r == instrument_relevant(a@),
{
    str_eq(a.field.as_str(), "instrumentation") || str_eq(a.field.as_str(), "instrument")
        || str_eq(a.field.as_str(), "ensemble")
}

impl MappingRules {
    /// Apply the genre rules to an assertion set and resolve conflicts.
    ///
    /// Assertions whose field is `genre`, `style`, `form`, or `tag` are
    /// matched against every rule in declaration order; a matching rule
    /// emits one proposal per present output, with confidence equal to the
    /// rule's times the assertion's. Proposals sharing (field, value) are
    /// then reduced to the strongest, with the rest kept as alternatives.
    pub fn apply_genre_rules(&self, assertions: &Vec<Assertion>) -> (r: Vec<ProposedTag>)
        requires
            self@.wf(),
            asserts_wf(asserts_view(assertions@)),
        ensures
            props_view(r@) == spec_apply_genre_rules(self@, asserts_view(assertions@)),
    {
        let ghost av = asserts_view(assertions@);
        let ghost rulesv = self@.genre_rules;
        let mut raw: Vec<ProposedTag> = Vec::new();
        let mut i: usize = 0;
        proof {
            assert(av.subrange(0, av.len() as int) =~= av);
        }
        while i < assertions.len()
            invariant
                self@.wf(),
                asserts_wf(av),
                av == asserts_view(assertions@),
                rulesv == self@.genre_rules,
                i <= av.len(),
                raw_genre_props(rulesv, av) =~~= props_view(raw@) + raw_genre_props(
                    rulesv,
                    av.subrange(i as int, av.len() as int),
                ),
            decreases av.len() - i,
        {
            let ghost tail = av.subrange(i as int, av.len() as int);
            proof {
                assert(tail[0] == av[i as int]);
                assert(tail.drop_first() =~= av.subrange(i + 1, av.len() as int));
            }
            let a = &assertions[i];
            if is_genre_relevant(a) {
                let text = a.value.match_text();
                let value_lower = lower_vec(&text);
                let ghost base = props_view(raw@);
                let mut j: usize = 0;
                proof {
                    assert(rulesv.subrange(0, rulesv.len() as int) =~= rulesv);
                }
                while j < self.genre_rules.len()
                    invariant
                        self@.wf(),
                        asserts_wf(av),
                        av == asserts_view(assertions@),
                        rulesv == self@.genre_rules,
                        i < av.len(),
                        a == &assertions@[i as int],
                        value_lower@ == lower_seq(render_value(av[i as int].value)),
                        j <= rulesv.len(),
                        genre_rules_outputs(rulesv, av[i as int]) =~~= props_view(raw@).subrange(
                            base.len() as int,
                            props_view(raw@).len() as int,
                        ) + genre_rules_outputs(
                            rulesv.subrange(j as int, rulesv.len() as int),
                            av[i as int],
                        ),
                        props_view(raw@).subrange(0, base.len() as int) == base,
                        base.len() <= props_view(raw@).len(),
                    decreases rulesv.len() - j,
                {
                    let ghost rtail = rulesv.subrange(j as int, rulesv.len() as int);
                    proof {
                        assert(rtail[0] == rulesv[j as int]);
                        assert(rtail.drop_first() =~= rulesv.subrange(j + 1, rulesv.len() as int));
                    }
                    let rule = &self.genre_rules[j];
                    let source_str = source_to_str(a.source);
                    if rule_matches_source(&rule.match_source, source_str) && matches_value_chars(
                        &rule.match_any,
                        &value_lower,
                    ) {
                        proof {
                            assert(rulesv[j as int] == self@.genre_rules[j as int]);
                            assert(0 <= self@.genre_rules[j as int].confidence <= 100);
                            assert(rule.confidence as int == rulesv[j as int].confidence);
                            assert(av[i as int].wf());
                        }
                        let ac: u32 = match a.confidence {
                            Some(c) => c,
                            None => 100,
                        };
                        proof {
                            assert(av[i as int] == assertions@[i as int]@);
                            assert(ac <= 100);
                            assert(rule.confidence <= 100);
                            assert(rule.confidence * ac <= 10000) by (nonlinear_arith)
                                requires
                                    rule.confidence <= 100,
                                    ac <= 100,
                            ;
                        }
                        let conf: u32 = rule.confidence * ac / 100;
                        let ghost before = props_view(raw@);
                        if let Some(g) = &rule.output_genre {
                            raw.push(
                                ProposedTag {
                                    field: String::from_str("genre"),
                                    value: g.clone(),
                                    source: a.source,
                                    rule_name: rule.name.clone(),
                                    confidence: conf,
                                    alternatives: Vec::new(),
                                },
                            );
                        }
                        if let Some(f) = &rule.output_form {
                            raw.push(
                                ProposedTag {
                                    field: String::from_str("form"),
                                    value: f.clone(),
                                    source: a.source,
                                    rule_name: rule.name.clone(),
                                    confidence: conf,
                                    alternatives: Vec::new(),
                                },
                            );
                        }
                        if let Some(l) = &rule.output_lcgft_label {
                            raw.push(
                                ProposedTag {
                                    field: String::from_str("genre"),
                                    value: l.clone(),
                                    source: a.source,
                                    rule_name: rule.name.clone(),
                                    confidence: conf,
                                    alternatives: Vec::new(),
                                },
                            );
                        }
                        proof {
                            assert(props_view(raw@).subrange(0, before.len() as int) =~= before);
                            assert(props_view(raw@).subrange(
                                before.len() as int,
                                props_view(raw@).len() as int,
                            ) =~~= genre_rule_outputs(rulesv[j as int], av[i as int]));
                        }
                    } else {
                        proof {
                            assert(genre_rule_outputs(rulesv[j as int], av[i as int])
                                =~= Seq::<PropVal>::empty());
                        }
                    }
                    proof {
                        assert(props_view(raw@).subrange(0, base.len() as int) =~= base);
                        assert(genre_rules_outputs(rulesv, av[i as int]) =~~= props_view(
                            raw@,
                        ).subrange(base.len() as int, props_view(raw@).len() as int)
                            + genre_rules_outputs(
                            rulesv.subrange(j + 1, rulesv.len() as int),
                            av[i as int],
                        ));
                    }
                    j += 1;
                }
                proof {
                    assert(rulesv.subrange(rulesv.len() as int, rulesv.len() as int).len() == 0);
                    assert(props_view(raw@) =~= base + props_view(raw@).subrange(
                        base.len() as int,
                        props_view(raw@).len() as int,
                    ));
                }
            }
            i += 1;
        }
        proof {
            assert(av.subrange(av.len() as int, av.len() as int).len() == 0);
            assert(props_view(raw@) =~~= raw_genre_props(rulesv, av));
        }
        let out = dedup_proposals(self, raw);
        out
    }

    /// Apply the instrument rules to an assertion set and resolve
    /// conflicts.
    ///
    /// Assertions whose field is `instrumentation`, `instrument`, or
    /// `ensemble` are matched against every rule in declaration order; a
    /// matching rule emits one `instrumentation` proposal per output
    /// instrument, with a fixed rule confidence of 80 times the
    /// assertion's. Conflicts resolve as for genre rules.
    pub fn apply_instrument_rules(&self, assertions: &Vec<Assertion>) -> (r: Vec<ProposedTag>)
        requires
            asserts_wf(asserts_view(assertions@)),
        ensures
            props_view(r@) == spec_apply_instrument_rules(self@, asserts_view(assertions@)),
    {
        let ghost av = asserts_view(assertions@);
        let ghost rulesv = self@.instrument_rules;
        let mut raw: Vec<ProposedTag> = Vec::new();
        let mut i: usize = 0;
        proof {
            assert(av.subrange(0, av.len() as int) =~= av);
        }
        while i < assertions.len()
            invariant
                asserts_wf(av),
                av == asserts_view(assertions@),
                rulesv == self@.instrument_rules,
                i <= av.len(),
                raw_instrument_props(rulesv, av) =~~= props_view(raw@) + raw_instrument_props(
                    rulesv,
                    av.subrange(i as int, av.len() as int),
                ),
            decreases av.len() - i,
        {
            let ghost tail = av.subrange(i as int, av.len() as int);
            proof {
                assert(tail[0] == av[i as int]);
                assert(tail.drop_first() =~= av.subrange(i + 1, av.len() as int));
            }
            let a = &assertions[i];
            if is_instrument_relevant(a) {
                let text = a.value.match_text();
                let value_lower = lower_vec(&text);
                let ghost base = props_view(raw@);
                let mut j: usize = 0;
                proof {
                    assert(rulesv.subrange(0, rulesv.len() as int) =~= rulesv);
                }
                while j < self.instrument_rules.len()
                    invariant
                        asserts_wf(av),
                        av == asserts_view(assertions@),
                        rulesv == self@.instrument_rules,
                        i < av.len(),
                        a == &assertions@[i as int],
                        value_lower@ == lower_seq(render_value(av[i as int].value)),
                        j <= rulesv.len(),
                        instrument_rules_outputs(rulesv, av[i as int]) =~~= props_view(
                            raw@,
                        ).subrange(base.len() as int, props_view(raw@).len() as int)
                            + instrument_rules_outputs(
                            rulesv.subrange(j as int, rulesv.len() as int),
                            av[i as int],
                        ),
                        props_view(raw@).subrange(0, base.len() as int) == base,
                        base.len() <= props_view(raw@).len(),
                    decreases rulesv.len() - j,
                {
                    let ghost rtail = rulesv.subrange(j as int, rulesv.len() as int);
                    proof {
                        assert(rtail[0] == rulesv[j as int]);
                        assert(rtail.drop_first() =~= rulesv.subrange(j + 1, rulesv.len() as int));
                    }
                    let rule = &self.instrument_rules[j];
                    if matches_value_chars(&rule.match_any, &value_lower) {
                        proof {
                            assert(av[i as int].wf());
                        }
                        let ac: u32 = match a.confidence {
                            Some(c) => c,
                            None => 100,
                        };
                        let conf: u32 = 80 * ac / 100;
                        let ghost before = props_view(raw@);
                        let mut m: usize = 0;
                        while m < rule.output_instruments.len()
                            invariant
                                rulesv == self@.instrument_rules,
                                i < av.len(),
                                av == asserts_view(assertions@),
                                j < rulesv.len(),
                                rule == &self.instrument_rules@[j as int],
                                a == &assertions@[i as int],
                                conf as int == combined_confidence(80, av[i as int].confidence),
                                m <= rule.output_instruments@.len(),
                                props_view(raw@).len() == before.len() + m,
                                props_view(raw@).subrange(0, before.len() as int) == before,
                                forall|k: int|
                                    0 <= k < m ==> props_view(raw@)[before.len() + k] =~~= fresh_prop(
                                        "instrumentation"@,
                                        rulesv[j as int].output_instruments[k],
                                        av[i as int].source,
                                        rulesv[j as int].name,
                                        conf as int,
                                    ),
                            decreases rule.output_instruments@.len() - m,
                        {
                            let ghost before2 = props_view(raw@);
                            raw.push(
                                ProposedTag {
                                    field: String::from_str("instrumentation"),
                                    value: rule.output_instruments[m].clone(),
                                    source: a.source,
                                    rule_name: rule.name.clone(),
                                    confidence: conf,
                                    alternatives: Vec::new(),
                                },
                            );
                            proof {
                                assert(props_view(raw@).subrange(0, before2.len() as int) =~= before2);
                                assert(props_view(raw@).subrange(0, before.len() as int) =~= before);
                            }
                            m += 1;
                        }
                        proof {
                            assert(props_view(raw@).subrange(
                                before.len() as int,
                                props_view(raw@).len() as int,
                            ) =~~= instrument_rule_outputs(rulesv[j as int], av[i as int]));
                        }
                    } else {
                        proof {
                            assert(instrument_rule_outputs(rulesv[j as int], av[i as int])
                                =~= Seq::<PropVal>::empty());
                        }
                    }
                    proof {
                        assert(props_view(raw@).subrange(0, base.len() as int) =~= base);
                        assert(instrument_rules_outputs(rulesv, av[i as int]) =~~= props_view(
                            raw@,
                        ).subrange(base.len() as int, props_view(raw@).len() as int)
                            + instrument_rules_outputs(
                            rulesv.subrange(j + 1, rulesv.len() as int),
                            av[i as int],
                        ));
                    }
                    j += 1;
                }
                proof {
                    assert(rulesv.subrange(rulesv.len() as int, rulesv.len() as int).len() == 0);
                    assert(props_view(raw@) =~= base + props_view(raw@).subrange(
                        base.len() as int,
                        props_view(raw@).len() as int,
                    ));
                }
            }
            i += 1;
        }
        proof {
            assert(av.subrange(av.len() as int, av.len() as int).len() == 0);
            assert(props_view(raw@) =~~= raw_instrument_props(rulesv, av));
        }
        let out = dedup_proposals(self, raw);
        out
    }
}

// ---------------------------------------------------------------------
// Laws of the rules engine
// ---------------------------------------------------------------------

/// The alternative record carrying a proposal's value, source, and
/// confidence.
pub open spec fn alt_of(p: PropVal) -> AltVal {
    AltVal { value: p.value, source: p.source, confidence: p.confidence }
}

/// No member of the group beats the one at the best index.
pub proof fn lemma_best_idx_max(sp: Seq<(Seq<char>, int)>, g: Seq<PropVal>)
    requires
        g.len() > 0,
    ensures
        forall|i: int| 0 <= i < g.len() ==> !better(sp, #[trigger] g[i], g[best_idx(sp, g)]),
    decreases g.len(),
{
    lemma_best_idx_range(sp, g);
    if g.len() > 1 {
        let pre = g.drop_last();
        lemma_best_idx_max(sp, pre);
        lemma_best_idx_range(sp, pre);
        let b = best_idx(sp, pre);
        assert forall|i: int| 0 <= i < g.len() implies !better(sp, g[i], g[best_idx(sp, g)]) by {
            if i < g.len() - 1 {
                assert(pre[i] == g[i]);
                assert(pre[b] == g[b]);
                assert(!better(sp, g[i], g[b]));
            }
        }
    }
}

/// Ordering a group keeps exactly its members.
pub proof fn lemma_sel_sort_multiset(sp: Seq<(Seq<char>, int)>, g: Seq<PropVal>)
    ensures
        sel_sort(sp, g).to_multiset() == g.to_multiset(),
    decreases g.len(),
{
    broadcast use vstd::seq_lib::group_to_multiset_ensures;

    if g.len() > 0 {
        lemma_best_idx_range(sp, g);
        let b = best_idx(sp, g);
        let rest = g.remove(b);
        lemma_sel_sort_multiset(sp, rest);
        vstd::seq_lib::lemma_multiset_commutative(seq![g[b]], sel_sort(sp, rest));
        assert(Seq::<PropVal>::empty().push(g[b]) =~= seq![g[b]]);
        assert(seq![g[b]].to_multiset() =~= Multiset::<PropVal>::empty().insert(g[b]));
        assert(g.remove(b).to_multiset() =~= g.to_multiset().remove(g[b]));
        assert(g.to_multiset().contains(g[b])) by {
            assert(g.contains(g[b]));
        }
        assert(sel_sort(sp, g).to_multiset() =~= g.to_multiset());
    }
}

/// The conflict-resolution winner of a non-empty group is one of its
/// members; no member has a higher declared source priority, nor, on
/// equal priority, a higher confidence; and the winner's alternatives
/// are the remaining members in strongest-first order, each keeping its
/// value, source, and confidence.
pub proof fn lemma_conflict_winner(sp: Seq<(Seq<char>, int)>, g: Seq<PropVal>)
    requires
        g.len() > 0,
    ensures
        ({
            let w = winner_of(sp, g);
            let s = sel_sort(sp, g);
            &&& s.to_multiset() == g.to_multiset()
            &&& s.len() == g.len()
            &&& exists|i: int|
                0 <= i < g.len() && (#[trigger] g[i]).field == w.field && g[i].value == w.value
                    && g[i].source == w.source && g[i].rule_name == w.rule_name && g[i].confidence
                    == w.confidence
            &&& forall|i: int| 0 <= i < g.len() ==> !better(sp, #[trigger] g[i], w)
            &&& w.alternatives.len() == g.len() - 1
            &&& forall|i: int|
                0 <= i < w.alternatives.len() ==> #[trigger] w.alternatives[i] == alt_of(s[i + 1])
        }),
{
    broadcast use vstd::seq_lib::group_to_multiset_ensures;

    let w = winner_of(sp, g);
    let s = sel_sort(sp, g);
    let b = best_idx(sp, g);
    lemma_best_idx_range(sp, g);
    lemma_best_idx_max(sp, g);
    lemma_sel_sort_multiset(sp, g);
    assert(s.len() == s.to_multiset().len());
    assert(g.len() == g.to_multiset().len());
    assert(s[0] == g[b]);
    assert(w.field == g[b].field && w.value == g[b].value && w.source == g[b].source
        && w.rule_name == g[b].rule_name && w.confidence == g[b].confidence);
    assert forall|i: int| 0 <= i < g.len() implies !better(sp, #[trigger] g[i], w) by {
        assert(!better(sp, g[i], g[b]));
    }
}

/// The rules engine is deterministic: over one rules document, equal
/// assertion sets yield equal genre proposals, equal instrument
/// proposals, and an equal period proposal — alternatives, and their
/// order, included.
pub proof fn lemma_rules_determinism(
    rules: MappingRulesVal,
    a1: Seq<AssertionVal>,
    a2: Seq<AssertionVal>,
    c1: Option<Seq<char>>,
    c2: Option<Seq<char>>,
    y1: Option<int>,
    y2: Option<int>,
)
    requires
        a1 == a2,
        c1 == c2,
        y1 == y2,
    ensures
        spec_apply_genre_rules(rules, a1) == spec_apply_genre_rules(rules, a2),
        spec_apply_instrument_rules(rules, a1) == spec_apply_instrument_rules(rules, a2),
        spec_apply_period_rules(rules.period_rules, c1, y1) == spec_apply_period_rules(
            rules.period_rules,
            c2,
            y2,
        ),
{
}

} // verus!
