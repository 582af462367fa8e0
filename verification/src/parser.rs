//! The recursive-descent parser.
//!
//! Each grammar production has a specification-level parser over `Seq<char>`
//! (`spec_parse_*`), written as the PEG equations of the grammar, and an
//! executable parser over `&str` whose contract says it returns exactly what
//! the specification parser does. Failure is non-destructive: a failing
//! production consumes nothing, so the remaining input handed back by every
//! successful production is always a suffix of its input.

use crate::{Match, Quantifier, QuantifierModifier, QuantifierType, Regex};
use vstd::prelude::*;

verus! {

/// Why a single production failed. The public entry point collapses all of
/// these, plus leftover input, into `None`.
#[derive(Debug, PartialEq)]
pub enum ParseError {
    EndOfInput,
    InvalidQuantifier,
    UnexpectedCharacter,
}

/// The alphabet a literal character may come from: the inclusive ASCII range
/// `'A' ..= 'z'` (letters plus the few punctuation code points between `'Z'`
/// and `'a'`).
pub open spec fn is_alphabet_char(c: char) -> bool {
    'A' <= c && c <= 'z'
}

/// The value an executable parsing function returned, seen abstractly:
/// the parsed tree and the view of the remaining input.
pub open spec fn res_view<'a>(
    r: Result<(Box<Regex>, &'a str), ParseError>,
) -> Result<(Regex, Seq<char>), ParseError> {
    match r {
        Ok((e, rem)) => Ok((*e, rem@)),
        Err(pe) => Err(pe),
    }
}

/// `Character := any character in 'A' ..= 'z'`; consumes one character.
pub open spec fn spec_parse_character(s: Seq<char>) -> Result<(Regex, Seq<char>), ParseError> {
    if s.len() == 0 {
        Err(ParseError::EndOfInput)
    } else if is_alphabet_char(s[0]) {
        Ok((Regex::Match(Match::Character(s[0])), s.skip(1)))
    } else {
        Err(ParseError::UnexpectedCharacter)
    }
}

/// Consumes exactly the character `c`.
pub open spec fn spec_expect_character(s: Seq<char>, c: char) -> Result<Seq<char>, ParseError> {
    if s.len() == 0 {
        Err(ParseError::EndOfInput)
    } else if s[0] == c {
        Ok(s.skip(1))
    } else {
        Err(ParseError::UnexpectedCharacter)
    }
}

/// `Quantifier := '?' | '*' | '+'`, always tagged `Greedy`; consumes one
/// character.
pub open spec fn spec_parse_quantifier(s: Seq<char>) -> Result<(Quantifier, Seq<char>), ParseError> {
    if s.len() == 0 {
        Err(ParseError::EndOfInput)
    } else if s[0] == '?' {
        Ok((Quantifier(QuantifierType::ZeroOrOne, QuantifierModifier::Greedy), s.skip(1)))
    } else if s[0] == '*' {
        Ok((Quantifier(QuantifierType::ZeroOrMore, QuantifierModifier::Greedy), s.skip(1)))
    } else if s[0] == '+' {
        Ok((Quantifier(QuantifierType::OneOrMore, QuantifierModifier::Greedy), s.skip(1)))
    } else {
        Err(ParseError::InvalidQuantifier)
    }
}

/// `Primary := Character | '(' Regex ')'`: ordered choice, trying a literal
/// character first and a parenthesized group second.
pub open spec fn spec_parse_primary(s: Seq<char>) -> Result<(Regex, Seq<char>), ParseError>
    decreases s.len(), 1int,
{
    match spec_parse_character(s) {
        Ok(p) => Ok(p),
        Err(_) => spec_parse_nested_regex(s),
    }
}

/// `'(' Regex ')'`: a parenthesized group. Fails, consuming nothing, unless
/// the opening parenthesis, a full expression and the closing parenthesis are
/// all present.
pub open spec fn spec_parse_nested_regex(s: Seq<char>) -> Result<(Regex, Seq<char>), ParseError>
    decreases s.len(), 0int,
{
    match spec_expect_character(s, '(') {
        Err(pe) => Err(pe),
        Ok(after_open) => match spec_parse_expression(after_open) {
            Err(pe) => Err(pe),
            Ok((e, rest)) => match spec_expect_character(rest, ')') {
                Err(pe) => Err(pe),
                Ok(after_close) => Ok((e, after_close)),
            },
        },
    }
}

/// `Repetition := Primary Quantifier?`: one mandatory primary, wrapped in a
/// `Repetition` node when exactly one quantifier character follows it.
pub open spec fn spec_parse_repetition(s: Seq<char>) -> Result<(Regex, Seq<char>), ParseError>
    decreases s.len(), 2int,
{
    match spec_parse_primary(s) {
        Err(pe) => Err(pe),
        Ok((e, rest)) => match spec_parse_quantifier(rest) {
            Ok((q, rest2)) => Ok((Regex::Repetition(Box::new(e), q), rest2)),
            Err(_) => Ok((e, rest)),
        },
    }
}

/// The left-associative fold of `Concatenation`: keeps parsing repetitions
/// and folding them into `Concatenation(acc, next)` until one fails, then
/// returns the tree built so far and the input the failed attempt did not
/// consume.
///
/// The length test on the remaining input only makes the recursion visibly
/// bounded; [`lemma_parse_progress`] shows a successful parse always consumes
/// at least one character, so the test never fails.
pub open spec fn spec_concatenation_tail(acc: Regex, s: Seq<char>) -> (Regex, Seq<char>)
    decreases s.len(), 3int,
{
    match spec_parse_repetition(s) {
        Ok((e, rest)) => if rest.len() < s.len() {
            spec_concatenation_tail(Regex::Concatenation(Box::new(acc), Box::new(e)), rest)
        } else {
            (acc, s)
        },
        Err(_) => (acc, s),
    }
}

/// `Concatenation := Repetition+`: at least one repetition, then the
/// left-associative fold.
pub open spec fn spec_parse_concatenation(s: Seq<char>) -> Result<(Regex, Seq<char>), ParseError>
    decreases s.len(), 4int,
{
    match spec_parse_repetition(s) {
        Err(pe) => Err(pe),
        Ok((e, rest)) => if rest.len() <= s.len() {
            Ok(spec_concatenation_tail(e, rest))
        } else {
            Ok((e, rest))
        },
    }
}

/// The left-associative fold of `Alternation`: while a `'|'` follows and a
/// concatenation can be parsed after it, fold into `Alternation(acc, next)`;
/// stop, consuming nothing further, as soon as either is missing.
///
/// As in [`spec_concatenation_tail`], the length test only bounds the
/// recursion and never fails.
pub open spec fn spec_alternation_tail(acc: Regex, s: Seq<char>) -> (Regex, Seq<char>)
    decreases s.len(), 5int,
{
    if s.len() > 0 && s[0] == '|' {
        match spec_parse_concatenation(s.skip(1)) {
            Ok((e, rest)) => if rest.len() < s.len() {
                spec_alternation_tail(Regex::Alternation(Box::new(acc), Box::new(e)), rest)
            } else {
                (acc, s)
            },
            Err(_) => (acc, s),
        }
    } else {
        (acc, s)
    }
}

/// `Alternation := Concatenation ('|' Concatenation)*`: one mandatory
/// concatenation, then the left-associative fold.
pub open spec fn spec_parse_alternation(s: Seq<char>) -> Result<(Regex, Seq<char>), ParseError>
    decreases s.len(), 6int,
{
    match spec_parse_concatenation(s) {
        Err(pe) => Err(pe),
        Ok((e, rest)) => if rest.len() <= s.len() {
            Ok(spec_alternation_tail(e, rest))
        } else {
            Ok((e, rest))
        },
    }
}

/// `Regex := Alternation`: the whole grammar, from its start symbol.
pub open spec fn spec_parse_expression(s: Seq<char>) -> Result<(Regex, Seq<char>), ParseError>
    decreases s.len(), 7int,
{
    spec_parse_alternation(s)
}

/// What [`parse_regex`] returns: the expression parsed from `s`, provided the
/// parse succeeds and consumes all of `s`; `None` on any failure.
pub open spec fn spec_parse_regex(s: Seq<char>) -> Option<Regex> {
    match spec_parse_expression(s) {
        Ok((e, rest)) => if rest.len() == 0 {
            Some(e)
        } else {
            None
        },
        Err(_) => None,
    }
}

/// Every successful production consumes at least one character, and the
/// folds never hand back more input than they were given. This discharges
/// the length tests inside [`spec_concatenation_tail`],
/// [`spec_parse_concatenation`], [`spec_alternation_tail`] and
/// [`spec_parse_alternation`]: along a successful parse they are always true.
pub proof fn lemma_parse_progress(s: Seq<char>)
    ensures
        spec_parse_character(s) matches Ok(p) ==> p.1.len() < s.len(),
        forall|c: char| #[trigger] spec_expect_character(s, c) matches Ok(r) ==> r.len() < s.len(),
        spec_parse_quantifier(s) matches Ok(p) ==> p.1.len() < s.len(),
        spec_parse_nested_regex(s) matches Ok(p) ==> p.1.len() < s.len(),
        spec_parse_primary(s) matches Ok(p) ==> p.1.len() < s.len(),
        spec_parse_repetition(s) matches Ok(p) ==> p.1.len() < s.len(),
        forall|acc: Regex| (#[trigger] spec_concatenation_tail(acc, s)).1.len() <= s.len(),
        spec_parse_concatenation(s) matches Ok(p) ==> p.1.len() < s.len(),
        forall|acc: Regex| (#[trigger] spec_alternation_tail(acc, s)).1.len() <= s.len(),
        spec_parse_alternation(s) matches Ok(p) ==> p.1.len() < s.len(),
        spec_parse_expression(s) matches Ok(p) ==> p.1.len() < s.len(),
    decreases s.len(),
{
    if s.len() > 0 && s[0] == '(' {
        lemma_parse_progress(s.skip(1));
    }
    assert(spec_parse_nested_regex(s) matches Ok(p) ==> p.1.len() < s.len());
    assert(spec_parse_primary(s) matches Ok(p) ==> p.1.len() < s.len());
    assert(spec_parse_repetition(s) matches Ok(p) ==> p.1.len() < s.len());
    if let Ok(p) = spec_parse_repetition(s) {
        lemma_parse_progress(p.1);
    }
    assert forall|acc: Regex| (#[trigger] spec_concatenation_tail(acc, s)).1.len()
        <= s.len() by {
        match spec_parse_repetition(s) {
            Ok(p) => {
                if p.1.len() < s.len() {
                    lemma_parse_progress(p.1);
                    let folded = Regex::Concatenation(Box::new(acc), Box::new(p.0));
                    assert(spec_concatenation_tail(acc, s) == spec_concatenation_tail(
                        folded,
                        p.1,
                    ));
                    assert(spec_concatenation_tail(folded, p.1).1.len() <= p.1.len());
                } else {
                    assert(spec_concatenation_tail(acc, s) == (acc, s));
                }
            },
            Err(_) => {
                assert(spec_concatenation_tail(acc, s) == (acc, s));
            },
        }
    }
    if let Ok(p) = spec_parse_repetition(s) {
        assert(spec_parse_concatenation(s) == Ok::<(Regex, Seq<char>), ParseError>(
            spec_concatenation_tail(p.0, p.1),
        ));
        assert(spec_concatenation_tail(p.0, p.1).1.len() <= p.1.len());
    }
    assert(spec_parse_concatenation(s) matches Ok(p) ==> p.1.len() < s.len());
    if s.len() > 0 && s[0] == '|' {
        lemma_parse_progress(s.skip(1));
    }
    assert forall|acc: Regex| (#[trigger] spec_alternation_tail(acc, s)).1.len() <= s.len() by {
        if s.len() > 0 && s[0] == '|' {
            match spec_parse_concatenation(s.skip(1)) {
                Ok(p) => {
                    if p.1.len() < s.len() {
                        lemma_parse_progress(p.1);
                        let folded = Regex::Alternation(Box::new(acc), Box::new(p.0));
                        assert(spec_alternation_tail(acc, s) == spec_alternation_tail(
                            folded,
                            p.1,
                        ));
                        assert(spec_alternation_tail(folded, p.1).1.len() <= p.1.len());
                    } else {
                        assert(spec_alternation_tail(acc, s) == (acc, s));
                    }
                },
                Err(_) => {
                    assert(spec_alternation_tail(acc, s) == (acc, s));
                },
            }
        } else {
            assert(spec_alternation_tail(acc, s) == (acc, s));
        }
    }
    if let Ok(p) = spec_parse_concatenation(s) {
        lemma_parse_progress(p.1);
        assert(spec_parse_alternation(s) == Ok::<(Regex, Seq<char>), ParseError>(
            spec_alternation_tail(p.0, p.1),
        ));
        assert(spec_alternation_tail(p.0, p.1).1.len() <= p.1.len());
    }
    assert(spec_parse_alternation(s) matches Ok(p) ==> p.1.len() < s.len());
}

/// Parses one character from the remaining input into a `Match` leaf.
/// Fails without consuming anything when the input is empty or its first
/// character lies outside the alphabet.
pub fn parse_character<'a>(input: &'a str) -> (r: Result<(Box<Regex>, &'a str), ParseError>)
    ensures
        res_view(r) == spec_parse_character(input@),
{
    let n = input.unicode_len();
    if n == 0 {
        return Err(ParseError::EndOfInput);
    }

    let first = input.get_char(0);
    if first >= 'A' && first <= 'z' {
        Ok((Box::new(Regex::Match(Match::Character(first))), input.substring_char(1, n)))
    } else {
        Err(ParseError::UnexpectedCharacter)
    }
}

/// Consumes the expected character `c` or fails without consuming anything.
pub fn expect_character<'a>(input: &'a str, c: char) -> (r: Result<((), &'a str), ParseError>)
    ensures
        match r {
            Ok((_, rem)) => spec_expect_character(input@, c) == Ok::<Seq<char>, ParseError>(rem@),
            Err(pe) => spec_expect_character(input@, c) == Err::<Seq<char>, ParseError>(pe),
        },
{
    let n = input.unicode_len();
    if n == 0 {
        return Err(ParseError::EndOfInput);
    }

    let first = input.get_char(0);
    if first == c {
        Ok(((), input.substring_char(1, n)))
    } else {
        Err(ParseError::UnexpectedCharacter)
    }
}

/// Suffixes of suffixes are suffixes.
proof fn lemma_suffix_trans(a: Seq<char>, b: Seq<char>, c: Seq<char>)
    requires
        a.is_suffix_of(b),
        b.is_suffix_of(c),
    ensures
        a.is_suffix_of(c),
{
    assert(a =~= c.subrange(c.len() - a.len(), c.len() as int));
}

/// The parser never fabricates leftover input: whatever remains after any
/// successful production is a suffix of the input that production was given.
/// Together with [`lemma_parse_progress`] this is the cursor discipline of
/// the whole parser — each production consumes a nonempty prefix and hands
/// the rest back untouched.
pub proof fn lemma_parse_suffix(s: Seq<char>)
    ensures
        spec_parse_character(s) matches Ok(p) ==> p.1.is_suffix_of(s),
        forall|c: char| #[trigger] spec_expect_character(s, c) matches Ok(r) ==> r.is_suffix_of(s),
        spec_parse_quantifier(s) matches Ok(p) ==> p.1.is_suffix_of(s),
        spec_parse_nested_regex(s) matches Ok(p) ==> p.1.is_suffix_of(s),
        spec_parse_primary(s) matches Ok(p) ==> p.1.is_suffix_of(s),
        spec_parse_repetition(s) matches Ok(p) ==> p.1.is_suffix_of(s),
        forall|acc: Regex| (#[trigger] spec_concatenation_tail(acc, s)).1.is_suffix_of(s),
        spec_parse_concatenation(s) matches Ok(p) ==> p.1.is_suffix_of(s),
        forall|acc: Regex| (#[trigger] spec_alternation_tail(acc, s)).1.is_suffix_of(s),
        spec_parse_alternation(s) matches Ok(p) ==> p.1.is_suffix_of(s),
        spec_parse_expression(s) matches Ok(p) ==> p.1.is_suffix_of(s),
    decreases s.len(),
{
    lemma_parse_progress(s);
    assert(s.is_suffix_of(s));
    if s.len() > 0 {
        assert(s.skip(1).is_suffix_of(s));
    }
    if s.len() > 0 && s[0] == '(' {
        lemma_parse_suffix(s.skip(1));
        if let Ok(p) = spec_parse_expression(s.skip(1)) {
            lemma_parse_progress(s.skip(1));
            if p.1.len() > 0 {
                lemma_suffix_trans(p.1.skip(1), p.1, s.skip(1));
                lemma_suffix_trans(p.1.skip(1), s.skip(1), s);
            }
        }
    }
    assert(spec_parse_nested_regex(s) matches Ok(p) ==> p.1.is_suffix_of(s));
    assert(spec_parse_primary(s) matches Ok(p) ==> p.1.is_suffix_of(s));
    if let Ok(p) = spec_parse_primary(s) {
        if p.1.len() > 0 {
            lemma_suffix_trans(p.1.skip(1), p.1, s);
        }
    }
    assert(spec_parse_repetition(s) matches Ok(p) ==> p.1.is_suffix_of(s));
    assert forall|acc: Regex| (#[trigger] spec_concatenation_tail(acc, s)).1.is_suffix_of(
        s,
    ) by {
        if let Ok(p) = spec_parse_repetition(s) {
            if p.1.len() < s.len() {
                lemma_parse_suffix(p.1);
                let folded = Regex::Concatenation(Box::new(acc), Box::new(p.0));
                assert(spec_concatenation_tail(folded, p.1).1.is_suffix_of(p.1));
                lemma_suffix_trans(spec_concatenation_tail(folded, p.1).1, p.1, s);
            }
        }
    }
    if let Ok(p) = spec_parse_repetition(s) {
        lemma_parse_suffix(p.1);
        assert(spec_concatenation_tail(p.0, p.1).1.is_suffix_of(p.1));
        lemma_suffix_trans(spec_concatenation_tail(p.0, p.1).1, p.1, s);
    }
    assert(spec_parse_concatenation(s) matches Ok(p) ==> p.1.is_suffix_of(s));
    assert forall|acc: Regex| (#[trigger] spec_alternation_tail(acc, s)).1.is_suffix_of(s) by {
        if s.len() > 0 && s[0] == '|' {
            if let Ok(p) = spec_parse_concatenation(s.skip(1)) {
                lemma_parse_progress(s.skip(1));
                if p.1.len() < s.len() {
                    lemma_parse_suffix(p.1);
                    lemma_parse_suffix(s.skip(1));
                    let folded = Regex::Alternation(Box::new(acc), Box::new(p.0));
                    assert(spec_alternation_tail(folded, p.1).1.is_suffix_of(p.1));
                    lemma_suffix_trans(p.1, s.skip(1), s);
                    lemma_suffix_trans(spec_alternation_tail(folded, p.1).1, p.1, s);
                }
            }
        }
    }
    if let Ok(p) = spec_parse_concatenation(s) {
        lemma_parse_suffix(p.1);
        assert(spec_alternation_tail(p.0, p.1).1.is_suffix_of(p.1));
        lemma_suffix_trans(spec_alternation_tail(p.0, p.1).1, p.1, s);
    }
    assert(spec_parse_alternation(s) matches Ok(p) ==> p.1.is_suffix_of(s));
}

/// No production starts at a closing parenthesis, at an alternation bar or
/// at the end of input: a repetition fails there without consuming anything,
/// the concatenation fold stops there, and the alternation fold stops at a
/// closing parenthesis or at the end of input.
pub proof fn lemma_parse_stops(s: Seq<char>)
    requires
        s.len() == 0 || s[0] == ')' || s[0] == '|',
    ensures
        spec_parse_repetition(s) is Err,
        forall|acc: Regex| #[trigger] spec_concatenation_tail(acc, s) == (acc, s),
        (s.len() == 0 || s[0] == ')') ==> forall|acc: Regex|
            #[trigger] spec_alternation_tail(acc, s) == (acc, s),
{
}

/// What [`parse_regex`] returned, seen abstractly: the parsed tree, if any.
pub open spec fn opt_view(r: Option<Box<Regex>>) -> Option<Regex> {
    match r {
        Some(e) => Some(*e),
        None => None,
    }
}

/// Parses a whole pattern. Returns the tree when the expression grammar
/// matches the entire input, and `None` on any failure, including leftover
/// unconsumed input.
pub fn parse_regex(input: &str) -> (r: Option<Box<Regex>>)
    ensures
        opt_view(r) == spec_parse_regex(input@),
{
    match parse_expression(input) {
        Ok((expr, rest)) => {
            if rest.unicode_len() == 0 {
                Some(expr)
            } else {
                None
            }
        },
        Err(_) => None,
    }
}

/// Parsing is deterministic: any two results of [`parse_regex`] on the same
/// character sequence — in particular, of repeated calls on the same string —
/// are structurally equal, because each is pinned to `spec_parse_regex`,
/// a function of the input alone.
pub proof fn lemma_parse_deterministic(
    r1: Option<Box<Regex>>,
    r2: Option<Box<Regex>>,
    s: Seq<char>,
)
    requires
        opt_view(r1) == spec_parse_regex(s),
        opt_view(r2) == spec_parse_regex(s),
    ensures
        opt_view(r1) == opt_view(r2),
{
}

/// Parses the start symbol of the grammar: an alternation.
pub fn parse_expression<'a>(input: &'a str) -> (r: Result<(Box<Regex>, &'a str), ParseError>)
    ensures
        res_view(r) == spec_parse_expression(input@),
    decreases input@.len(), 7int,
{
    parse_alternation(input)
}

/// Parses one concatenation, then folds further `'|'`-separated
/// concatenations into left-nested `Alternation` nodes. Stops, consuming
/// nothing further, as soon as no `'|'` follows or the concatenation after a
/// `'|'` fails.
pub fn parse_alternation<'a>(input: &'a str) -> (r: Result<(Box<Regex>, &'a str), ParseError>)
    ensures
        res_view(r) == spec_parse_alternation(input@),
    decreases input@.len(), 6int,
{
    let (first, rest0) = match parse_concatenation(input) {
        Ok(p) => p,
        Err(pe) => {
            return Err(pe);
        },
    };
    proof {
        lemma_parse_progress(input@);
    }
    let mut expr = first;
    let mut rest = rest0;
    loop
        invariant
            rest@.len() < input@.len(),
            spec_parse_alternation(input@) == Ok::<(Regex, Seq<char>), ParseError>(
                spec_alternation_tail(*expr, rest@),
            ),
        decreases rest@.len(),
    {
        match expect_character(rest, '|') {
            Ok((_, after_bar)) => {
                match parse_concatenation(after_bar) {
                    Ok((next, rest2)) => {
                        proof {
                            lemma_parse_progress(after_bar@);
                        }
                        expr = Box::new(Regex::Alternation(expr, next));
                        rest = rest2;
                    },
                    Err(_) => {
                        return Ok((expr, rest));
                    },
                }
            },
            Err(_) => {
                return Ok((expr, rest));
            },
        }
    }
}

/// Parses one repetition, then folds further repetitions into left-nested
/// `Concatenation` nodes, stopping at the first repetition that fails and
/// consuming nothing of it.
pub fn parse_concatenation<'a>(input: &'a str) -> (r: Result<(Box<Regex>, &'a str), ParseError>)
    ensures
        res_view(r) == spec_parse_concatenation(input@),
    decreases input@.len(), 4int,
{
    let (first, rest0) = match parse_repetition(input) {
        Ok(p) => p,
        Err(pe) => {
            return Err(pe);
        },
    };
    proof {
        lemma_parse_progress(input@);
    }
    let mut expr = first;
    let mut rest = rest0;
    loop
        invariant
            rest@.len() < input@.len(),
            spec_parse_concatenation(input@) == Ok::<(Regex, Seq<char>), ParseError>(
                spec_concatenation_tail(*expr, rest@),
            ),
        decreases rest@.len(),
    {
        match parse_repetition(rest) {
            Ok((next, rest2)) => {
                proof {
                    lemma_parse_progress(rest@);
                }
                expr = Box::new(Regex::Concatenation(expr, next));
                rest = rest2;
            },
            Err(_) => {
                return Ok((expr, rest));
            },
        }
    }
}

/// Parses one primary and at most one quantifier immediately after it,
/// wrapping the pair in a `Repetition` node when the quantifier is present.
pub fn parse_repetition<'a>(input: &'a str) -> (r: Result<(Box<Regex>, &'a str), ParseError>)
    ensures
        res_view(r) == spec_parse_repetition(input@),
    decreases input@.len(), 2int,
{
    let (e, rest) = match parse_primary(input) {
        Ok(p) => p,
        Err(pe) => {
            return Err(pe);
        },
    };
    match parse_quantifier(rest) {
        Ok((q, rest2)) => Ok((Box::new(Regex::Repetition(e, q)), rest2)),
        Err(_) => Ok((e, rest)),
    }
}

/// Parses a primary: a literal character or, failing that, a parenthesized
/// group.
pub fn parse_primary<'a>(input: &'a str) -> (r: Result<(Box<Regex>, &'a str), ParseError>)
    ensures
        res_view(r) == spec_parse_primary(input@),
    decreases input@.len(), 1int,
{
    match parse_character(input) {
        Ok(p) => Ok(p),
        Err(_) => parse_nested_regex(input),
    }
}

/// Parses a parenthesized group: `'('`, a full expression, `')'`. Fails
/// when the group is not properly closed.
pub fn parse_nested_regex<'a>(input: &'a str) -> (r: Result<(Box<Regex>, &'a str), ParseError>)
    ensures
        res_view(r) == spec_parse_nested_regex(input@),
    decreases input@.len(), 0int,
{
    let (_, after_open) = match expect_character(input, '(') {
        Ok(p) => p,
        Err(pe) => {
            return Err(pe);
        },
    };
    let (expr, rest) = match parse_expression(after_open) {
        Ok(p) => p,
        Err(pe) => {
            return Err(pe);
        },
    };
    let (_, after_close) = match expect_character(rest, ')') {
        Ok(p) => p,
        Err(pe) => {
            return Err(pe);
        },
    };
    Ok((expr, after_close))
}

/// Parses one quantifier character, or fails without consuming anything.
pub fn parse_quantifier<'a>(input: &'a str) -> (r: Result<(Quantifier, &'a str), ParseError>)
    ensures
        match r {
            Ok((q, rem)) => spec_parse_quantifier(input@) == Ok::<(Quantifier, Seq<char>), ParseError>((q, rem@)),
            Err(pe) => spec_parse_quantifier(input@) == Err::<(Quantifier, Seq<char>), ParseError>(pe),
        },
{
    let n = input.unicode_len();
    if n == 0 {
        return Err(ParseError::EndOfInput);
    }

    let first = input.get_char(0);
    let qtype = match first {
        '?' => QuantifierType::ZeroOrOne,
        '*' => QuantifierType::ZeroOrMore,
        '+' => QuantifierType::OneOrMore,
        _ => {
            return Err(ParseError::InvalidQuantifier);
        },
    };
    Ok((Quantifier(qtype, QuantifierModifier::Greedy), input.substring_char(1, n)))
}

} // verus!
