//! Structured values carried by provenance assertions.
//!
//! An assertion's value is either a scalar or a flat record of named
//! scalars. The rules engine matches on a canonical text rendering of the
//! value: a plain string renders as itself, everything else renders in a
//! JSON-like form (keys and strings quoted, entries comma-separated, no
//! escaping).

use vstd::prelude::*;

use crate::text::{dec_chars_signed, dec_string_i64, push_all};

verus! {

/// A scalar inside a record value.
#[derive(Debug, PartialEq)]
pub enum FieldScalar {
    /// An absent value.
    Null,
    /// An integer.
    Int(i64),
    /// A text value.
    Text(String),
    /// A list of text values.
    TextList(Vec<String>),
}

/// The mathematical value of a [`FieldScalar`].
#[verifier::ext_equal]
pub ghost enum ScalarVal {
    /// An absent value.
    Null,
    /// An integer.
    Int(int),
    /// A text value.
    Text(Seq<char>),
    /// A list of text values.
    TextList(Seq<Seq<char>>),
}

impl View for FieldScalar {
    type V = ScalarVal;

    open spec fn view(&self) -> ScalarVal {
        match self {
            FieldScalar::Null => ScalarVal::Null,
            FieldScalar::Int(i) => ScalarVal::Int(*i as int),
            FieldScalar::Text(t) => ScalarVal::Text(t@),
            FieldScalar::TextList(v) => ScalarVal::TextList(
                Seq::new(v@.len(), |i: int| v@[i]@),
            ),
        }
    }
}

/// The value of an assertion.
#[derive(Debug, PartialEq)]
pub enum FieldValue {
    /// An absent value.
    Null,
    /// An integer.
    Int(i64),
    /// A text value.
    Text(String),
    /// A flat record of named scalars.
    Record(Vec<(String, FieldScalar)>),
}

/// The mathematical value of a [`FieldValue`].
#[verifier::ext_equal]
pub ghost enum Val {
    /// An absent value.
    Null,
    /// An integer.
    Int(int),
    /// A text value.
    Text(Seq<char>),
    /// A flat record of named scalars.
    Record(Seq<(Seq<char>, ScalarVal)>),
}

impl View for FieldValue {
    type V = Val;

    open spec fn view(&self) -> Val {
        match self {
            FieldValue::Null => Val::Null,
            FieldValue::Int(i) => Val::Int(*i as int),
            FieldValue::Text(t) => Val::Text(t@),
            FieldValue::Record(entries) => Val::Record(
                Seq::new(entries@.len(), |i: int| (entries@[i].0@, entries@[i].1@)),
            ),
        }
    }
}

/// The characters `null`.
pub open spec fn null_chars() -> Seq<char> {
    seq!['n', 'u', 'l', 'l']
}

/// A character sequence wrapped in double quotes.
pub open spec fn quoted(s: Seq<char>) -> Seq<char> {
    seq!['"'] + s + seq!['"']
}

/// Parts joined with commas.
pub open spec fn comma_join(parts: Seq<Seq<char>>) -> Seq<char>
    decreases parts.len(),
{
    if parts.len() == 0 {
        Seq::empty()
    } else if parts.len() == 1 {
        parts[0]
    } else {
        comma_join(parts.drop_last()) + seq![','] + parts.last()
    }
}

/// The canonical rendering of a scalar.
pub open spec fn render_scalar(s: ScalarVal) -> Seq<char> {
    match s {
        ScalarVal::Null => null_chars(),
        ScalarVal::Int(i) => dec_chars_signed(i),
        ScalarVal::Text(t) => quoted(t),
        ScalarVal::TextList(v) => seq!['['] + comma_join(
            Seq::new(v.len(), |i: int| quoted(v[i])),
        ) + seq![']'],
    }
}

/// The canonical rendering of a record's entries.
pub open spec fn rendered_entries(entries: Seq<(Seq<char>, ScalarVal)>) -> Seq<Seq<char>> {
    Seq::new(entries.len(), |i: int| quoted(entries[i].0) + seq![':'] + render_scalar(entries[i].1))
}

/// The canonical text of a value, as the rules engine matches against it.
///
/// A plain string renders as itself, without quotes; everything else
/// renders in the JSON-like form.
pub open spec fn render_value(v: Val) -> Seq<char> {
    match v {
        Val::Null => null_chars(),
        Val::Int(i) => dec_chars_signed(i),
        Val::Text(t) => t,
        Val::Record(entries) => seq!['{'] + comma_join(rendered_entries(entries)) + seq!['}'],
    }
}

fn push_quoted(out: &mut Vec<char>, s: &str)
    ensures
        final(out)@ == old(out)@ + quoted(s@),
{
    out.push('"');
    let cs = crate::text::chars_of(s);
    push_all(out, &cs);
    out.push('"');
    proof {
        assert(out@ =~= old(out)@ + quoted(s@));
    }
}

fn render_scalar_exec(s: &FieldScalar) -> (r: Vec<char>)
    ensures
        r@ == render_scalar(s@),
{
    match s {
        FieldScalar::Null => {
            let mut r: Vec<char> = Vec::new();
            r.push('n');
            r.push('u');
            r.push('l');
            r.push('l');
            proof {
                assert(r@ =~= null_chars());
            }
            r
        },
        FieldScalar::Int(i) => dec_string_i64(*i),
        FieldScalar::Text(t) => {
            let mut r: Vec<char> = Vec::new();
            push_quoted(&mut r, t.as_str());
            proof {
                assert(r@ =~= quoted(t@));
            }
            r
        },
        FieldScalar::TextList(v) => {
            let ghost parts = Seq::new(v@.len(), |i: int| quoted(v@[i]@));
            let mut r: Vec<char> = Vec::new();
            r.push('[');
            let mut i: usize = 0;
            while i < v.len()
                invariant
                    parts == Seq::new(v@.len(), |k: int| quoted(v@[k]@)),
                    i <= v@.len(),
                    r@ == seq!['['] + comma_join(parts.subrange(0, i as int)),
                decreases v@.len() - i,
            {
                if i > 0 {
                    r.push(',');
                }
                push_quoted(&mut r, v[i].as_str());
                proof {
                    let pre = parts.subrange(0, i + 1);
                    assert(pre.drop_last() =~= parts.subrange(0, i as int));
                    assert(pre.last() == quoted(v@[i as int]@));
                    assert(r@ =~= seq!['['] + comma_join(pre));
                }
                i += 1;
            }
            r.push(']');
            proof {
                assert(parts.subrange(0, v@.len() as int) =~= parts);
                assert(r@ =~= seq!['['] + comma_join(parts) + seq![']']);
                assert(parts =~= Seq::new(s@->TextList_0.len(), |i: int| quoted(s@->TextList_0[i])));
            }
            r
        },
    }
}

impl FieldValue {
    /// The canonical text of this value, as a character sequence.
    pub fn match_text(&self) -> (r: Vec<char>)
        ensures
            r@ == render_value(self@),
    {
        match self {
            FieldValue::Null => {
                let mut r: Vec<char> = Vec::new();
                r.push('n');
                r.push('u');
                r.push('l');
                r.push('l');
                proof {
                    assert(r@ =~= null_chars());
                }
                r
            },
            FieldValue::Int(i) => dec_string_i64(*i),
            FieldValue::Text(t) => crate::text::chars_of(t.as_str()),
            FieldValue::Record(entries) => {
                let ghost ventries = Seq::new(
                    entries@.len(),
                    |i: int| (entries@[i].0@, entries@[i].1@),
                );
                let ghost parts = rendered_entries(ventries);
                let mut r: Vec<char> = Vec::new();
                r.push('{');
                let mut i: usize = 0;
                while i < entries.len()
                    invariant
                        ventries == Seq::new(
                            entries@.len(),
                            |k: int| (entries@[k].0@, entries@[k].1@),
                        ),
                        parts == rendered_entries(ventries),
                        i <= entries@.len(),
                        r@ == seq!['{'] + comma_join(parts.subrange(0, i as int)),
                    decreases entries@.len() - i,
                {
                    if i > 0 {
                        r.push(',');
                    }
                    push_quoted(&mut r, entries[i].0.as_str());
                    r.push(':');
                    let sv = render_scalar_exec(&entries[i].1);
                    push_all(&mut r, &sv);
                    proof {
                        let pre = parts.subrange(0, i + 1);
                        assert(pre.drop_last() =~= parts.subrange(0, i as int));
                        assert(pre.last() == quoted(ventries[i as int].0) + seq![':']
                            + render_scalar(ventries[i as int].1));
                        assert(r@ =~= seq!['{'] + comma_join(pre));
                    }
                    i += 1;
                }
                r.push('}');
                proof {
                    assert(parts.subrange(0, entries@.len() as int) =~= parts);
                    assert(r@ =~= seq!['{'] + comma_join(parts) + seq!['}']);
                }
                r
            },
        }
    }

    /// The integer held by this value, when it holds one.
    pub fn as_int(&self) -> (r: Option<i64>)
        ensures
            match r {
                Some(v) => self@ == Val::Int(v as int),
                None => !(self@ is Int),
            },
    {
        match self {
            FieldValue::Int(i) => Some(*i),
            _ => None,
        }
    }

    /// The text held by this value, when it holds a plain string.
    pub fn as_text(&self) -> (r: Option<&str>)
        ensures
            match r {
                Some(t) => self@ == Val::Text(t@),
                None => !(self@ is Text),
            },
    {
        match self {
            FieldValue::Text(t) => Some(t.as_str()),
            _ => None,
        }
    }
}

impl Clone for FieldScalar {
    /// A copy with the same mathematical value.
    fn clone(&self) -> (r: Self)
        ensures
            r@ == self@,
    {
        match self {
            FieldScalar::Null => FieldScalar::Null,
            FieldScalar::Int(i) => FieldScalar::Int(*i),
            FieldScalar::Text(t) => FieldScalar::Text(t.clone()),
            FieldScalar::TextList(v) => {
                let r = FieldScalar::TextList(crate::text::clone_strings(v));
                proof {
                    assert(r@ is TextList);
                    assert(r@->TextList_0 =~= self@->TextList_0);
                    assert(r@ =~= self@);
                }
                r
            },
        }
    }
}

impl Clone for FieldValue {
    /// A copy with the same mathematical value.
    fn clone(&self) -> (r: Self)
        ensures
            r@ == self@,
    {
        match self {
            FieldValue::Null => FieldValue::Null,
            FieldValue::Int(i) => FieldValue::Int(*i),
            FieldValue::Text(t) => FieldValue::Text(t.clone()),
            FieldValue::Record(entries) => {
                let mut out: Vec<(String, FieldScalar)> = Vec::new();
                let mut i: usize = 0;
                while i < entries.len()
                    invariant
                        i <= entries@.len(),
                        out@.len() == i,
                        forall|k: int|
                            0 <= k < i ==> out@[k].0@ == entries@[k].0@ && out@[k].1@
                                == entries@[k].1@,
                    decreases entries@.len() - i,
                {
                    out.push((entries[i].0.clone(), entries[i].1.clone()));
                    i += 1;
                }
                let r = FieldValue::Record(out);
                proof {
                    assert(r@->Record_0 =~= self@->Record_0);
                    assert(r@ =~= self@);
                }
                r
            },
        }
    }
}

} // verus!
