//! Stylesheet data: values, selectors, declarations and rules.

use vstd::prelude::*;

verus! {

#[derive(Clone, Copy, Debug, PartialEq, Eq)]
pub enum Unit {
    Px,
}

#[derive(Clone, Copy, Debug, PartialEq, Eq)]
pub struct Color {
    pub r: u8,
    pub g: u8,
    pub b: u8,
    pub a: u8,
}

/// A property value. A length is a whole number of its unit.
#[derive(Debug, PartialEq, Eq)]
pub enum Value {
    Keyword(String),
    Length(i64, Unit),
    ColorValue(Color),
}

impl Value {
    /// Whether the value is the keyword made of exactly the characters `word`.
    pub open spec fn is_keyword(&self, word: Seq<char>) -> bool {
        match self {
            Value::Keyword(s) => s@ == word,
            _ => false,
        }
    }

    /// Whether the value is the keyword `auto`.
    pub open spec fn is_auto(&self) -> bool {
        self.is_keyword("auto"@)
    }

    /// The pixels a value stands for: a length's number, zero for anything else.
    pub open spec fn px(&self) -> int {
        match self {
            Value::Length(n, Unit::Px) => *n as int,
            _ => 0,
        }
    }

    /// A copy of the value.
    pub fn duplicate(&self) -> (r: Value)
        ensures
            r == *self,
    {
        match self {
            Value::Keyword(s) => Value::Keyword(s.clone()),
            Value::Length(n, u) => Value::Length(*n, *u),
            Value::ColorValue(c) => Value::ColorValue(*c),
        }
    }

    /// The size of a length in pixels, or zero for a value that is no length.
    pub fn to_px(&self) -> (r: i64)
        ensures
            r == self.px(),
    {
        match self {
            Value::Length(n, Unit::Px) => *n,
            _ => 0,
        }
    }

    /// Tells whether the value is the keyword `auto`.
    pub fn auto(&self) -> (r: bool)
        ensures
            r == self.is_auto(),
    {
        match self {
            Value::Keyword(s) => crate::table::same_text(s.as_str(), "auto"),
            _ => false,
        }
    }
}

/// Counts of the id, class and tag parts of a selector, compared in that order.
pub type Specificity = (usize, usize, usize);

/// `a` ranks strictly below `b`.
pub open spec fn ranks_below(a: Specificity, b: Specificity) -> bool {
    a.0 < b.0 || (a.0 == b.0 && (a.1 < b.1 || (a.1 == b.1 && a.2 < b.2)))
}

/// Tells whether `a` ranks strictly below `b`.
pub fn below(a: Specificity, b: Specificity) -> (r: bool)
    ensures
        r == ranks_below(a, b),
{
    a.0 < b.0 || (a.0 == b.0 && (a.1 < b.1 || (a.1 == b.1 && a.2 < b.2)))
}

/// A selector of one optional tag name, one optional id and a set of classes.
pub struct SimpleSelector {
    pub tag_name: Option<String>,
    pub id: Option<String>,
    pub class: Vec<String>,
}

pub enum Selector {
    Simple(SimpleSelector),
}

impl Selector {
    pub open spec fn rank(&self) -> Specificity {
        match self {
            Selector::Simple(s) => (
                if s.id.is_some() { 1usize } else { 0usize },
                s.class.len(),
                if s.tag_name.is_some() { 1usize } else { 0usize },
            ),
        }
    }

    /// The selector's specificity: how many ids, classes and tags it names.
    pub fn specificity(&self) -> (r: Specificity)
        ensures
            r == self.rank(),
    {
        match self {
            Selector::Simple(s) => {
                let ids: usize = if s.id.is_some() { 1 } else { 0 };
                let tags: usize = if s.tag_name.is_some() { 1 } else { 0 };
                (ids, s.class.len(), tags)
            },
        }
    }
}

pub struct Declaration {
    pub name: String,
    pub value: Value,
}

/// Selectors, any of which makes the rule apply, and the declarations it
/// carries.
pub struct Rule {
    pub selectors: Vec<Selector>,
    pub declarations: Vec<Declaration>,
}

pub struct Stylesheet {
    pub rules: Vec<Rule>,
}

} // verus!
