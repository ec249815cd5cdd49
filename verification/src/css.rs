//! The stylesheet data model: values, declarations, selectors, rules, and
//! selector specificity.

use vstd::prelude::*;

verus! {

/// An RGBA color with four 8-bit channels.
#[derive(Debug, Clone, Copy, PartialEq, Eq)]
pub struct Color {
    pub r: u8,
    pub g: u8,
    pub b: u8,
    pub a: u8,
}

/// A unit for length values.
#[derive(Debug, Clone, Copy, PartialEq, Eq)]
pub enum Unit {
    Px,
}

/// A resolved CSS value. A length carries an integer magnitude in its unit.
#[derive(Debug, PartialEq)]
pub enum Value {
    Keyword(String),
    Length(i64, Unit),
    ColorValue(Color),
}

/// The mathematical model of a `Value`: the keyword string is replaced by its
/// view, everything else is carried as is.
pub enum ValueModel {
    Keyword(Seq<char>),
    Length(i64, Unit),
    ColorValue(Color),
}

pub open spec fn value_model(v: Value) -> ValueModel {
    match v {
        Value::Keyword(s) => ValueModel::Keyword(s@),
        Value::Length(m, u) => ValueModel::Length(m, u),
        Value::ColorValue(c) => ValueModel::ColorValue(c),
    }
}

impl Clone for Value {
    fn clone(&self) -> (r: Self)
        ensures
            value_model(r) == value_model(*self),
    {
        match self {
            Value::Keyword(s) => Value::Keyword(s.clone()),
            Value::Length(m, u) => Value::Length(*m, *u),
            Value::ColorValue(c) => Value::ColorValue(*c),
        }
    }
}

/// A property name paired with the value it declares.
#[derive(Debug, PartialEq)]
pub struct Declaration {
    pub name: String,
    pub value: Value,
}

/// A simple selector: an optional tag-name constraint, an optional id
/// constraint, and a set of required class names. An empty selector matches
/// every element.
#[derive(Debug)]
pub struct SimpleSelector {
    pub tag_name: Option<String>,
    pub id: Option<String>,
    pub class: Vec<String>,
}

/// A selector. The variant set is closed; matching dispatches on it in one
/// place so that further selector kinds can be added as new variants.
#[derive(Debug)]
pub enum Selector {
    Simple(SimpleSelector),
}

/// A rule applies all of its declarations to every element that at least one
/// of its selectors matches.
#[derive(Debug)]
pub struct Rule {
    pub selectors: Vec<Selector>,
    pub declarations: Vec<Declaration>,
}

/// An ordered sequence of rules; the order breaks specificity ties, later
/// rules winning.
#[derive(Debug)]
pub struct Stylesheet {
    pub rules: Vec<Rule>,
}

/// Specificity of a selector: id presence, class count, tag-name presence.
/// Comparison is lexicographic, so an id dominates any number of classes and
/// a class dominates a tag name.
pub type Specificity = (usize, usize, usize);

/// The mathematical value of a specificity triple.
pub open spec fn sp_model(s: Specificity) -> (int, int, int) {
    (s.0 as int, s.1 as int, s.2 as int)
}

/// Lexicographic `>=` on mathematical specificity triples.
pub open spec fn spec_lex_ge(a: (int, int, int), b: (int, int, int)) -> bool {
    a.0 > b.0 || (a.0 == b.0 && (a.1 > b.1 || (a.1 == b.1 && a.2 >= b.2)))
}

/// Lexicographic `>` on mathematical specificity triples.
pub open spec fn spec_lex_gt(a: (int, int, int), b: (int, int, int)) -> bool {
    a.0 > b.0 || (a.0 == b.0 && (a.1 > b.1 || (a.1 == b.1 && a.2 > b.2)))
}

/// The greater of two specificity triples under the lexicographic order.
pub open spec fn spec_lex_max(a: (int, int, int), b: (int, int, int)) -> (int, int, int) {
    if spec_lex_ge(a, b) {
        a
    } else {
        b
    }
}

/// Lexicographic `>=` on executable specificity triples.
pub fn lex_ge(a: Specificity, b: Specificity) -> (r: bool)
    ensures
        r == spec_lex_ge(sp_model(a), sp_model(b)),
{
    if a.0 != b.0 {
        a.0 > b.0
    } else if a.1 != b.1 {
        a.1 > b.1
    } else {
        a.2 >= b.2
    }
}

impl Selector {
    /// The simple selector this selector carries.
    pub open spec fn simple(self) -> SimpleSelector {
        match self {
            Selector::Simple(s) => s,
        }
    }

    /// Specificity as a mathematical triple: 1 or 0 for an id, the number of
    /// required classes, 1 or 0 for a tag name.
    pub open spec fn spec_specificity(self) -> (int, int, int) {
        (
            if self.simple().id is Some {
                1int
            } else {
                0int
            },
            self.simple().class@.len() as int,
            if self.simple().tag_name is Some {
                1int
            } else {
                0int
            },
        )
    }

    /// Computes the specificity of this selector.
    pub fn specificity(&self) -> (r: Specificity)
        ensures
            sp_model(r) == self.spec_specificity(),
    {
        match self {
            Selector::Simple(s) => {
                let a: usize = if s.id.is_some() {
                    1
                } else {
                    0
                };
                let b: usize = s.class.len();
                let c: usize = if s.tag_name.is_some() {
                    1
                } else {
                    0
                };
                (a, b, c)
            },
        }
    }
}

/// A selector that specifies an id outranks any selector that does not,
/// regardless of how many classes either requires.
pub proof fn lemma_id_dominates(s1: Selector, s2: Selector)
    requires
        s1.simple().id is Some,
        s2.simple().id is None,
    ensures
        spec_lex_gt(s1.spec_specificity(), s2.spec_specificity()),
{
}

/// Among selectors without an id, the one that requires more classes
/// outranks the other.
pub proof fn lemma_class_count_orders(s1: Selector, s2: Selector)
    requires
        s1.simple().id is None,
        s2.simple().id is None,
        s1.simple().class@.len() > s2.simple().class@.len(),
    ensures
        spec_lex_gt(s1.spec_specificity(), s2.spec_specificity()),
{
}

} // verus!
