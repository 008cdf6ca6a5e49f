//! The literal values that string formatting works on.

use vstd::prelude::*;
use crate::number::Number;
use crate::number::Real;
use crate::number::real_of;
use crate::text::chars_of;

verus! {

/// A floating-point number, held as two texts: the text that shows the number where it
/// is put into a string as it is, and a text that writes its value. The second text
/// always writes a number, an infinity or `nan`, so every value that is held can be
/// formatted.
///
/// Formatting rounds the value that the second text writes. Where that is the full
/// decimal expansion of a double, the digits that come out are those of that double.
/// Where it is only the shortest text that stands for the double, a number that lies
/// half-way between two results in that text may be rounded the other way.
#[derive(Debug, PartialEq, Eq)]
pub struct FloatValue {
    shown: String,
    exact: String,
}

impl FloatValue {
    #[verifier::type_invariant]
    spec fn exact_is_read(self) -> bool {
        real_of(self.exact@) is Some
    }

    /// The text that shows the number.
    pub closed spec fn text(self) -> Seq<char> {
        self.shown@
    }

    /// The text that writes the value of the number.
    pub closed spec fn exact_text(self) -> Seq<char> {
        self.exact@
    }

    /// The value of the number.
    pub open spec fn value(self) -> Option<Real> {
        real_of(self.exact_text())
    }

    /// A number that is shown as `shown` and has the value that `exact` writes, if
    /// `exact` writes one.
    pub fn new(shown: &str, exact: &str) -> (value: Option<FloatValue>)
        ensures
            match value {
                Some(f) => f.text() == shown@ && f.exact_text() == exact@ && f.value() is Some,
                None => real_of(exact@) is None,
            },
    {
        match Number::parse(&chars_of(exact)) {
            Some(_) => Some(FloatValue { shown: shown.to_string(), exact: exact.to_string() }),
            None => None,
        }
    }

    /// A number that is shown by the text that writes its value.
    pub fn from_text(text: &str) -> (value: Option<FloatValue>)
        ensures
            match value {
                Some(f) => f.text() == text@ && f.exact_text() == text@ && f.value() is Some,
                None => real_of(text@) is None,
            },
    {
        FloatValue::new(text, text)
    }

    /// Gives the text that shows the number.
    pub fn shown(&self) -> (text: &String)
        ensures
            text@ == self.text(),
    {
        &self.shown
    }

    /// Gives the text that writes the value of the number.
    pub fn exact(&self) -> (text: &String)
        ensures
            text@ == self.exact_text(),
    {
        &self.exact
    }

    /// Gives the value of the number.
    pub fn to_number(&self) -> (n: Number)
        ensures
            self.value() == Some(n@),
    {
        proof {
            use_type_invariant(self);
        }
        match Number::parse(&chars_of(self.exact.as_str())) {
            Some(n) => n,
            None => Number::NotANumber,
        }
    }
}

impl Clone for FloatValue {
    fn clone(&self) -> (copy: Self)
        ensures
            copy == *self,
    {
        proof {
            use_type_invariant(self);
        }
        FloatValue { shown: self.shown.clone(), exact: self.exact.clone() }
    }
}

/// A literal value of one of the four kinds that string formatting knows. An integer is
/// held as its decimal numeral.
#[derive(Debug, PartialEq, Eq)]
pub enum FinderType {
    Int(String),
    Float(FloatValue),
    Bool(bool),
    Str(String),
}

impl FinderType {
    /// The text that stands for the value where it is put into a string as it is.
    pub open spec fn text(self) -> Seq<char> {
        match self {
            FinderType::Int(t) => t@,
            FinderType::Float(f) => f.text(),
            FinderType::Bool(b) => if b {
                "True"@
            } else {
                "False"@
            },
            FinderType::Str(t) => t@,
        }
    }

    /// Gives the text that stands for the value where it is put into a string as it is.
    pub fn to_text(&self) -> (t: String)
        ensures
            t@ == self.text(),
    {
        match self {
            FinderType::Int(t) => t.clone(),
            FinderType::Float(f) => f.shown().clone(),
            FinderType::Bool(b) => if *b {
                "True".to_string()
            } else {
                "False".to_string()
            },
            FinderType::Str(t) => t.clone(),
        }
    }
}

impl Clone for FinderType {
    fn clone(&self) -> (copy: Self)
        ensures
            copy == *self,
    {
        match self {
            FinderType::Int(t) => FinderType::Int(t.clone()),
            FinderType::Float(f) => FinderType::Float(f.clone()),
            FinderType::Bool(b) => FinderType::Bool(*b),
            FinderType::Str(t) => FinderType::Str(t.clone()),
        }
    }
}

} // verus!
