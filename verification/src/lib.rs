//! A verified recursive-descent parser for a small regular-expression
//! language, together with the abstract syntax tree it produces.
//!
//! The grammar (loosest to tightest binding):
//!
//! ```text
//! Regex         := Alternation
//! Alternation   := Concatenation ('|' Concatenation)*
//! Concatenation := Repetition+
//! Repetition    := Primary Quantifier?
//! Primary       := Character | '(' Regex ')'
//! Quantifier    := '?' | '*' | '+'
//! Character     := any character in the inclusive range 'A' ..= 'z'
//! ```
//!
//! [`parser::parse_regex`] turns a string into a [`Regex`] tree, succeeding
//! only when the whole input is consumed. [`render::render`] prints a tree
//! back to a fully parenthesized string, and [`render::lemma_parse_render`]
//! proves that parsing such a rendering gives the same tree back.

use vstd::prelude::*;

pub mod parser;
pub mod render;

verus! {

/// Internal representation for a regular expression.
#[derive(Debug, PartialEq)]
pub enum Regex {
    Match(Match),
    Concatenation(Box<Regex>, Box<Regex>),
    Alternation(Box<Regex>, Box<Regex>),
    Repetition(Box<Regex>, Quantifier),
}

/// What a leaf of the tree matches: a literal character, or any character.
/// Only the literal-character variant has surface syntax; the parser never
/// produces `AnyCharacter`.
#[derive(Debug, PartialEq)]
pub enum Match {
    Character(char),
    AnyCharacter,
}

impl From<Match> for Regex {
    fn from(m: Match) -> (r: Self) {
        Regex::Match(m)
    }
}

impl vstd::std_specs::convert::FromSpecImpl<Match> for Regex {
    open spec fn obeys_from_spec() -> bool {
        true
    }

    open spec fn from_spec(m: Match) -> Regex {
        Regex::Match(m)
    }
}

/// Quantifier for expressions.
/// The first component specifies the type of the quantifier (how many).
/// The second component specifies the modifier of the quantifier (greediness).
#[derive(Debug, PartialEq)]
pub struct Quantifier(pub QuantifierType, pub QuantifierModifier);

/// Greediness of a quantifier. The grammar has no surface syntax for
/// non-greedy repetition, so the parser only ever produces `Greedy`.
#[derive(Debug, PartialEq)]
pub enum QuantifierModifier {
    Greedy,
    Nongreedy,
}

/// Cardinality of a quantifier: `?`, `+` or `*`.
#[derive(Debug, PartialEq)]
pub enum QuantifierType {
    ZeroOrOne,
    OneOrMore,
    ZeroOrMore,
}

/// Builds the leaf `Match(Character(c))`.
pub fn character(c: char) -> (r: Box<Regex>)
    ensures
        *r == Regex::Match(Match::Character(c)),
{
    Box::new(Regex::Match(Match::Character(c)))
}

/// Builds `Alternation(e1, e2)`: ordered choice between the two operands.
pub fn alternation(e1: Box<Regex>, e2: Box<Regex>) -> (r: Box<Regex>)
    ensures
        *r == Regex::Alternation(e1, e2),
{
    Box::new(Regex::Alternation(e1, e2))
}

/// Builds `Concatenation(e1, e2)`: `e1` immediately followed by `e2`.
pub fn concatenation(e1: Box<Regex>, e2: Box<Regex>) -> (r: Box<Regex>)
    ensures
        *r == Regex::Concatenation(e1, e2),
{
    Box::new(Regex::Concatenation(e1, e2))
}

/// Builds `Repetition(e, q)`: `e` repeated according to `q`.
pub fn repetition(e: Box<Regex>, q: Quantifier) -> (r: Box<Regex>)
    ensures
        *r == Regex::Repetition(e, q),
{
    Box::new(Regex::Repetition(e, q))
}

} // verus!
