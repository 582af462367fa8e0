//! A canonical printer for [`Regex`] trees, and the proof that parsing a
//! rendered tree yields the tree back.
//!
//! The printer parenthesizes every composite node, so the text it produces
//! never depends on operator precedence.

use crate::parser::{
    is_alphabet_char, lemma_parse_stops, spec_alternation_tail, spec_concatenation_tail,
    spec_parse_alternation, spec_parse_concatenation, spec_parse_expression,
    spec_parse_regex, spec_parse_repetition, ParseError,
};
use crate::{Match, Quantifier, QuantifierModifier, QuantifierType, Regex};
use vstd::prelude::*;

verus! {

/// The surface character of a quantifier's cardinality.
pub open spec fn quantifier_char(t: QuantifierType) -> char {
    match t {
        QuantifierType::ZeroOrOne => '?',
        QuantifierType::OneOrMore => '+',
        QuantifierType::ZeroOrMore => '*',
    }
}

/// A tree the grammar has surface syntax for: every leaf is a literal
/// character from the parser's alphabet, and every quantifier is greedy.
pub open spec fn renderable(e: Regex) -> bool
    decreases e,
{
    match e {
        Regex::Match(m) => m matches Match::Character(c) && is_alphabet_char(c),
        Regex::Concatenation(a, b) => renderable(*a) && renderable(*b),
        Regex::Alternation(a, b) => renderable(*a) && renderable(*b),
        Regex::Repetition(inner, q) => renderable(*inner) && q.1 == QuantifierModifier::Greedy,
    }
}

/// The canonical, fully parenthesized rendering of a tree.
pub open spec fn spec_render(e: Regex) -> Seq<char>
    decreases e,
{
    match e {
        Regex::Match(m) => match m {
            Match::Character(c) => seq![c],
            Match::AnyCharacter => seq!['.'],
        },
        Regex::Concatenation(a, b) => seq!['('] + spec_render(*a) + spec_render(*b) + seq![')'],
        Regex::Alternation(a, b) => seq!['('] + spec_render(*a) + seq!['|'] + spec_render(*b)
            + seq![')'],
        Regex::Repetition(inner, q) => seq!['('] + spec_render(*inner) + seq![')']
            + seq![quantifier_char(q.0)],
    }
}

/// A renderable tree's text is never empty, and starts with an alphabet
/// character or an opening parenthesis — never with a quantifier, a bar or a
/// closing parenthesis.
pub proof fn lemma_render_first_char(e: Regex)
    requires
        renderable(e),
    ensures
        spec_render(e).len() > 0,
        is_alphabet_char(spec_render(e)[0]) || spec_render(e)[0] == '(',
{
}

/// A repetition production consumes exactly the rendering of a renderable
/// tree and yields that tree, as long as the text after the rendering does
/// not begin with a quantifier character (which would be folded into an
/// extra `Repetition` node).
#[verifier::rlimit(60)]
pub proof fn lemma_repetition_render(t: Regex, tail: Seq<char>)
    requires
        renderable(t),
        tail.len() == 0 || (tail[0] != '?' && tail[0] != '*' && tail[0] != '+'),
    ensures
        spec_parse_repetition(spec_render(t) + tail) == Ok::<(Regex, Seq<char>), ParseError>(
            (t, tail),
        ),
    decreases t, 0int,
{
    let s = spec_render(t) + tail;
    match t {
        Regex::Match(m) => {
            if let Match::Character(c) = m {
                assert(s[0] == c);
                assert(s.skip(1) =~= tail);
            } else {
                assert(false);
            }
        },
        Regex::Concatenation(a, b) => {
            let ra = spec_render(*a);
            let rb = spec_render(*b);
            let rest2 = seq![')'] + tail;
            let rest1 = rb + rest2;
            let inner = ra + rest1;
            lemma_render_first_char(*a);
            lemma_render_first_char(*b);
            assert(s[0] == '(');
            assert(s.skip(1) =~= inner);
            lemma_repetition_render(*a, rest1);
            lemma_repetition_render(*b, rest2);
            lemma_parse_stops(rest2);
            let folded = Regex::Concatenation(Box::new(*a), Box::new(*b));
            assert(folded == t);
            assert(spec_concatenation_tail(*a, rest1) == (folded, rest2));
            assert(spec_parse_concatenation(inner) == Ok::<(Regex, Seq<char>), ParseError>(
                (t, rest2),
            ));
            assert(spec_alternation_tail(t, rest2) == (t, rest2));
            assert(spec_parse_expression(inner) == Ok::<(Regex, Seq<char>), ParseError>(
                (t, rest2),
            ));
            assert(rest2.skip(1) =~= tail);
        },
        Regex::Alternation(a, b) => {
            let ra = spec_render(*a);
            let rb = spec_render(*b);
            let rest2 = seq![')'] + tail;
            let restb = rb + rest2;
            let rest1 = seq!['|'] + restb;
            let inner = ra + rest1;
            lemma_render_first_char(*a);
            lemma_render_first_char(*b);
            assert(s[0] == '(');
            assert(s.skip(1) =~= inner);
            lemma_repetition_render(*a, rest1);
            lemma_parse_stops(rest1);
            assert(spec_parse_concatenation(inner) == Ok::<(Regex, Seq<char>), ParseError>(
                (*a, rest1),
            ));
            assert(rest1.skip(1) =~= restb);
            lemma_repetition_render(*b, rest2);
            lemma_parse_stops(rest2);
            assert(spec_parse_concatenation(restb) == Ok::<(Regex, Seq<char>), ParseError>(
                (*b, rest2),
            ));
            let folded = Regex::Alternation(Box::new(*a), Box::new(*b));
            assert(folded == t);
            assert(spec_alternation_tail(*a, rest1) == (folded, rest2));
            assert(spec_parse_expression(inner) == Ok::<(Regex, Seq<char>), ParseError>(
                (t, rest2),
            ));
            assert(rest2.skip(1) =~= tail);
        },
        Regex::Repetition(inner_e, q) => {
            let re = spec_render(*inner_e);
            let qc = quantifier_char(q.0);
            let tail2 = seq![qc] + tail;
            let rest2 = seq![')'] + tail2;
            assert(s[0] == '(');
            assert(s.skip(1) =~= re + rest2);
            lemma_expression_render(*inner_e, rest2);
            assert(rest2.skip(1) =~= tail2);
            assert(tail2[0] == qc);
            assert(tail2.skip(1) =~= tail);
            assert(q == Quantifier(q.0, QuantifierModifier::Greedy));
        },
    }
}

/// A whole expression consumes exactly the rendering of a renderable tree
/// and yields that tree, as long as the text after the rendering is empty or
/// begins with a closing parenthesis, where every production stops.
pub proof fn lemma_expression_render(t: Regex, tail: Seq<char>)
    requires
        renderable(t),
        tail.len() == 0 || tail[0] == ')',
    ensures
        spec_parse_expression(spec_render(t) + tail) == Ok::<(Regex, Seq<char>), ParseError>(
            (t, tail),
        ),
    decreases t, 1int,
{
    let s = spec_render(t) + tail;
    lemma_render_first_char(t);
    lemma_repetition_render(t, tail);
    lemma_parse_stops(tail);
    assert(spec_parse_concatenation(s) == Ok::<(Regex, Seq<char>), ParseError>((t, tail)));
    assert(spec_alternation_tail(t, tail) == (t, tail));
    assert(spec_parse_alternation(s) == Ok::<(Regex, Seq<char>), ParseError>((t, tail)));
}

/// The round-trip law: parsing the canonical rendering of any renderable
/// tree — any tree whose leaves are alphabet characters and whose
/// quantifiers are greedy — succeeds and gives back that very tree.
pub proof fn lemma_parse_render(t: Regex)
    requires
        renderable(t),
    ensures
        spec_parse_regex(spec_render(t)) == Some(t),
{
    lemma_expression_render(t, Seq::empty());
    assert(spec_render(t) + Seq::<char>::empty() =~= spec_render(t));
}

/// Relies on `String::push`: appends exactly the given character to the end
/// of the string.
#[verifier::external_body]
fn push_char(out: &mut String, c: char)
    ensures
        final(out)@ == old(out)@.push(c),
{
    out.push(c);
}

/// Appends the canonical rendering of `e` to `out`.
fn render_into(e: &Regex, out: &mut String)
    ensures
        final(out)@ == old(out)@ + spec_render(*e),
    decreases *e,
{
    match e {
        Regex::Match(m) => {
            match m {
                Match::Character(c) => push_char(out, *c),
                Match::AnyCharacter => push_char(out, '.'),
            }
            proof {
                assert(final(out)@ =~= old(out)@ + spec_render(*e));
            }
        },
        Regex::Concatenation(a, b) => {
            push_char(out, '(');
            render_into(a, out);
            render_into(b, out);
            push_char(out, ')');
            proof {
                assert(final(out)@ =~= old(out)@ + spec_render(*e));
            }
        },
        Regex::Alternation(a, b) => {
            push_char(out, '(');
            render_into(a, out);
            push_char(out, '|');
            render_into(b, out);
            push_char(out, ')');
            proof {
                assert(final(out)@ =~= old(out)@ + spec_render(*e));
            }
        },
        Regex::Repetition(inner, q) => {
            push_char(out, '(');
            render_into(inner, out);
            push_char(out, ')');
            let Quantifier(qt, _) = q;
            match qt {
                QuantifierType::ZeroOrOne => push_char(out, '?'),
                QuantifierType::OneOrMore => push_char(out, '+'),
                QuantifierType::ZeroOrMore => push_char(out, '*'),
            }
            proof {
                assert(final(out)@ =~= old(out)@ + spec_render(*e));
            }
        },
    }
}

/// Prints a tree to its canonical, fully parenthesized text. Parsing that
/// text gives the tree back whenever the tree is [`renderable`]
/// ([`lemma_parse_render`]).
pub fn render(e: &Regex) -> (s: String)
    ensures
        s@ == spec_render(*e),
{
    let mut out = String::new();
    render_into(e, &mut out);
    proof {
        assert(out@ =~= spec_render(*e));
    }
    out
}

} // verus!
