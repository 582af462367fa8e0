use regex_ast::parser::parse_regex;
use regex_ast::render::render;
use regex_ast::{
    alternation, character, concatenation, repetition, Quantifier, QuantifierModifier,
    QuantifierType,
};

#[test]
fn render_leaf() {
    assert_eq!(render(&character('a')), "a");
}

#[test]
fn render_composites() {
    assert_eq!(
        render(&concatenation(character('a'), character('b'))),
        "(ab)"
    );
    assert_eq!(render(&alternation(character('a'), character('b'))), "(a|b)");
    assert_eq!(
        render(&repetition(
            character('a'),
            Quantifier(QuantifierType::ZeroOrMore, QuantifierModifier::Greedy)
        )),
        "(a)*"
    );
    assert_eq!(
        render(&repetition(
            character('a'),
            Quantifier(QuantifierType::ZeroOrOne, QuantifierModifier::Greedy)
        )),
        "(a)?"
    );
    assert_eq!(
        render(&repetition(
            character('a'),
            Quantifier(QuantifierType::OneOrMore, QuantifierModifier::Greedy)
        )),
        "(a)+"
    );
}

#[test]
fn round_trip_leaf() {
    let rendered = render(&character('z'));
    assert_eq!(parse_regex(&rendered), Some(character('z')));
}

#[test]
fn round_trip_nested_tree() {
    let tree = || {
        alternation(
            alternation(
                character('a'),
                repetition(
                    concatenation(character('b'), character('c')),
                    Quantifier(QuantifierType::ZeroOrMore, QuantifierModifier::Greedy),
                ),
            ),
            character('d'),
        )
    };
    let rendered = render(&tree());
    assert_eq!(parse_regex(&rendered), Some(tree()));
}

#[test]
fn round_trip_right_nested_concatenation() {
    // Unparenthesized text always reparses as a left-nested tree; the
    // canonical printer must parenthesize so that a right-nested tree
    // survives the round trip.
    let tree = || {
        concatenation(
            character('a'),
            concatenation(character('b'), character('c')),
        )
    };
    let rendered = render(&tree());
    assert_eq!(rendered, "(a(bc))");
    assert_eq!(parse_regex(&rendered), Some(tree()));
}
