//! Taxonomy types: genres, forms, instruments, periods, and the two
//! controlled vocabularies (genre/form terms and medium-of-performance
//! terms).

use vstd::prelude::*;

use crate::model::opt_view;
use crate::text::clone_opt_string;

verus! {

/// A genre classification; genres can be hierarchical through `parent`.
#[derive(Debug, PartialEq)]
pub struct Genre {
    /// Display name.
    pub name: String,
    /// Optional parent genre for hierarchical classification.
    pub parent: Option<String>,
    /// Genre/form vocabulary URI, if mapped.
    pub lcgft_uri: Option<String>,
}

/// The mathematical value of a [`Genre`].
#[verifier::ext_equal]
pub ghost struct GenreVal {
    /// Display name.
    pub name: Seq<char>,
    /// Optional parent genre.
    pub parent: Option<Seq<char>>,
    /// Genre/form vocabulary URI, if mapped.
    pub lcgft_uri: Option<Seq<char>>,
}

impl View for Genre {
    type V = GenreVal;

    open spec fn view(&self) -> GenreVal {
        GenreVal {
            name: self.name@,
            parent: opt_view(self.parent),
            lcgft_uri: opt_view(self.lcgft_uri),
        }
    }
}

impl Genre {
    /// A genre with the given name and no parent.
    pub fn new(name: &str) -> (r: Genre)
        ensures
            r@.name == name@,
            r@.parent is None,
            r@.lcgft_uri is None,
    {
        Genre { name: name.to_owned(), parent: None, lcgft_uri: None }
    }

    /// The same genre with the parent set.
    pub fn with_parent(self, parent: &str) -> (r: Genre)
        ensures
            r@ == (GenreVal { parent: Some(parent@), ..self@ }),
    {
        Genre { parent: Some(parent.to_owned()), ..self }
    }
}

impl Clone for Genre {
    /// A copy with the same mathematical value.
    fn clone(&self) -> (r: Self)
        ensures
            r@ == self@,
    {
        Genre {
            name: self.name.clone(),
            parent: clone_opt_string(&self.parent),
            lcgft_uri: clone_opt_string(&self.lcgft_uri),
        }
    }
}

/// A musical form (sonata, fugue, string quartet, and the like); form
/// describes structure, genre describes style.
#[derive(Debug, PartialEq)]
pub struct Form {
    /// Display name.
    pub name: String,
    /// Genre/form vocabulary URI, if mapped.
    pub lcgft_uri: Option<String>,
}

/// The mathematical value of a [`Form`].
#[verifier::ext_equal]
pub ghost struct FormVal {
    /// Display name.
    pub name: Seq<char>,
    /// Genre/form vocabulary URI, if mapped.
    pub lcgft_uri: Option<Seq<char>>,
}

impl View for Form {
    type V = FormVal;

    open spec fn view(&self) -> FormVal {
        FormVal { name: self.name@, lcgft_uri: opt_view(self.lcgft_uri) }
    }
}

impl Form {
    /// A form with the given name.
    pub fn new(name: &str) -> (r: Form)
        ensures
            r@.name == name@,
            r@.lcgft_uri is None,
    {
        Form { name: name.to_owned(), lcgft_uri: None }
    }
}

impl Clone for Form {
    /// A copy with the same mathematical value.
    fn clone(&self) -> (r: Self)
        ensures
            r@ == self@,
    {
        Form { name: self.name.clone(), lcgft_uri: clone_opt_string(&self.lcgft_uri) }
    }
}

/// An instrument or medium of performance.
#[derive(Debug, PartialEq)]
pub struct Instrument {
    /// Display name.
    pub name: String,
    /// Abbreviation, if conventional.
    pub abbreviation: Option<String>,
    /// Medium-of-performance vocabulary URI, if mapped.
    pub lcmpt_uri: Option<String>,
}

/// The mathematical value of an [`Instrument`].
#[verifier::ext_equal]
pub ghost struct InstrumentVal {
    /// Display name.
    pub name: Seq<char>,
    /// Abbreviation, if conventional.
    pub abbreviation: Option<Seq<char>>,
    /// Medium-of-performance vocabulary URI, if mapped.
    pub lcmpt_uri: Option<Seq<char>>,
}

impl View for Instrument {
    type V = InstrumentVal;

    open spec fn view(&self) -> InstrumentVal {
        InstrumentVal {
            name: self.name@,
            abbreviation: opt_view(self.abbreviation),
            lcmpt_uri: opt_view(self.lcmpt_uri),
        }
    }
}

impl Instrument {
    /// An instrument with the given name.
    pub fn new(name: &str) -> (r: Instrument)
        ensures
            r@.name == name@,
            r@.abbreviation is None,
            r@.lcmpt_uri is None,
    {
        Instrument { name: name.to_owned(), abbreviation: None, lcmpt_uri: None }
    }
}

impl Clone for Instrument {
    /// A copy with the same mathematical value.
    fn clone(&self) -> (r: Self)
        ensures
            r@ == self@,
    {
        Instrument {
            name: self.name.clone(),
            abbreviation: clone_opt_string(&self.abbreviation),
            lcmpt_uri: clone_opt_string(&self.lcmpt_uri),
        }
    }
}

/// A musical period or era.
#[derive(Debug, PartialEq)]
pub struct Period {
    /// Display name.
    pub name: String,
    /// Approximate start year.
    pub start_year: Option<i32>,
    /// Approximate end year.
    pub end_year: Option<i32>,
}

/// The mathematical value of a [`Period`].
#[verifier::ext_equal]
pub ghost struct PeriodVal {
    /// Display name.
    pub name: Seq<char>,
    /// Approximate start year.
    pub start_year: Option<int>,
    /// Approximate end year.
    pub end_year: Option<int>,
}

impl View for Period {
    type V = PeriodVal;

    open spec fn view(&self) -> PeriodVal {
        PeriodVal {
            name: self.name@,
            start_year: match self.start_year {
                Some(y) => Some(y as int),
                None => None,
            },
            end_year: match self.end_year {
                Some(y) => Some(y as int),
                None => None,
            },
        }
    }
}

impl Period {
    /// A period with the given name and no year range.
    pub fn new(name: &str) -> (r: Period)
        ensures
            r@.name == name@,
            r@.start_year is None,
            r@.end_year is None,
    {
        Period { name: name.to_owned(), start_year: None, end_year: None }
    }

    /// The same period with both endpoint years set.
    pub fn with_range(self, start: i32, end: i32) -> (r: Period)
        ensures
            r@ == (PeriodVal {
                start_year: Some(start as int),
                end_year: Some(end as int),
                ..self@
            }),
    {
        Period { start_year: Some(start), end_year: Some(end), ..self }
    }
}

impl Clone for Period {
    /// A copy with the same mathematical value.
    fn clone(&self) -> (r: Self)
        ensures
            r@ == self@,
    {
        Period {
            name: self.name.clone(),
            start_year: self.start_year,
            end_year: self.end_year,
        }
    }
}

/// A genre/form vocabulary term; terms form a hierarchy through
/// `broader_uri`.
#[derive(Debug, PartialEq)]
pub struct LcgftTerm {
    /// The canonical URI.
    pub uri: String,
    /// The preferred label.
    pub label: String,
    /// URI of the broader (parent) term, if any.
    pub broader_uri: Option<String>,
    /// Scope note explaining usage of this term.
    pub scope_note: Option<String>,
}

/// The mathematical value of a vocabulary term.
#[verifier::ext_equal]
pub ghost struct TermVal {
    /// The canonical URI.
    pub uri: Seq<char>,
    /// The preferred label.
    pub label: Seq<char>,
    /// URI of the broader (parent) term, if any.
    pub broader_uri: Option<Seq<char>>,
    /// Scope note explaining usage of this term.
    pub scope_note: Option<Seq<char>>,
}

impl View for LcgftTerm {
    type V = TermVal;

    open spec fn view(&self) -> TermVal {
        TermVal {
            uri: self.uri@,
            label: self.label@,
            broader_uri: opt_view(self.broader_uri),
            scope_note: opt_view(self.scope_note),
        }
    }
}

impl LcgftTerm {
    /// A term with the given URI and label, with no parent and no note.
    pub fn new(uri: &str, label: &str) -> (r: LcgftTerm)
        ensures
            r@.uri == uri@,
            r@.label == label@,
            r@.broader_uri is None,
            r@.scope_note is None,
    {
        LcgftTerm {
            uri: uri.to_owned(),
            label: label.to_owned(),
            broader_uri: None,
            scope_note: None,
        }
    }

    /// The same term with the broader (parent) URI set.
    pub fn with_broader(self, broader_uri: &str) -> (r: LcgftTerm)
        ensures
            r@ == (TermVal { broader_uri: Some(broader_uri@), ..self@ }),
    {
        LcgftTerm { broader_uri: Some(broader_uri.to_owned()), ..self }
    }

    /// The same term with the scope note set.
    pub fn with_scope_note(self, note: &str) -> (r: LcgftTerm)
        ensures
            r@ == (TermVal { scope_note: Some(note@), ..self@ }),
    {
        LcgftTerm { scope_note: Some(note.to_owned()), ..self }
    }
}

impl Clone for LcgftTerm {
    /// A copy with the same mathematical value.
    fn clone(&self) -> (r: Self)
        ensures
            r@ == self@,
    {
        LcgftTerm {
            uri: self.uri.clone(),
            label: self.label.clone(),
            broader_uri: clone_opt_string(&self.broader_uri),
            scope_note: clone_opt_string(&self.scope_note),
        }
    }
}

/// A medium-of-performance vocabulary term; terms form a hierarchy through
/// `broader_uri`.
#[derive(Debug, PartialEq)]
pub struct LcmptTerm {
    /// The canonical URI.
    pub uri: String,
    /// The preferred label.
    pub label: String,
    /// URI of the broader (parent) term, if any.
    pub broader_uri: Option<String>,
    /// Scope note explaining usage of this term.
    pub scope_note: Option<String>,
}

impl View for LcmptTerm {
    type V = TermVal;

    open spec fn view(&self) -> TermVal {
        TermVal {
            uri: self.uri@,
            label: self.label@,
            broader_uri: opt_view(self.broader_uri),
            scope_note: opt_view(self.scope_note),
        }
    }
}

impl LcmptTerm {
    /// A term with the given URI and label, with no parent and no note.
    pub fn new(uri: &str, label: &str) -> (r: LcmptTerm)
        ensures
            r@.uri == uri@,
            r@.label == label@,
            r@.broader_uri is None,
            r@.scope_note is None,
    {
        LcmptTerm {
            uri: uri.to_owned(),
            label: label.to_owned(),
            broader_uri: None,
            scope_note: None,
        }
    }

    /// The same term with the broader (parent) URI set.
    pub fn with_broader(self, broader_uri: &str) -> (r: LcmptTerm)
        ensures
            r@ == (TermVal { broader_uri: Some(broader_uri@), ..self@ }),
    {
        LcmptTerm { broader_uri: Some(broader_uri.to_owned()), ..self }
    }

    /// The same term with the scope note set.
    pub fn with_scope_note(self, note: &str) -> (r: LcmptTerm)
        ensures
            r@ == (TermVal { scope_note: Some(note@), ..self@ }),
    {
        LcmptTerm { scope_note: Some(note.to_owned()), ..self }
    }
}

impl Clone for LcmptTerm {
    /// A copy with the same mathematical value.
    fn clone(&self) -> (r: Self)
        ensures
            r@ == self@,
    {
        LcmptTerm {
            uri: self.uri.clone(),
            label: self.label.clone(),
            broader_uri: clone_opt_string(&self.broader_uri),
            scope_note: clone_opt_string(&self.scope_note),
        }
    }
}

} // verus!
