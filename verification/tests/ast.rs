use regex_ast::{
    alternation, character, concatenation, repetition, Match, Quantifier, QuantifierModifier,
    QuantifierType, Regex,
};

#[test]
fn constructors_build_expected_variants() {
    assert_eq!(*character('x'), Regex::Match(Match::Character('x')));
    assert_eq!(
        *concatenation(character('a'), character('b')),
        Regex::Concatenation(character('a'), character('b'))
    );
    assert_eq!(
        *alternation(character('a'), character('b')),
        Regex::Alternation(character('a'), character('b'))
    );
    assert_eq!(
        *repetition(
            character('a'),
            Quantifier(QuantifierType::OneOrMore, QuantifierModifier::Greedy)
        ),
        Regex::Repetition(
            character('a'),
            Quantifier(QuantifierType::OneOrMore, QuantifierModifier::Greedy)
        )
    );
}

#[test]
fn match_converts_into_regex() {
    let r: Regex = Match::Character('a').into();
    assert_eq!(r, *character('a'));
}

#[test]
fn structural_equality_compares_shape_and_leaves() {
    assert_eq!(
        concatenation(character('a'), character('b')),
        concatenation(character('a'), character('b'))
    );
    assert_ne!(
        concatenation(character('a'), character('b')),
        concatenation(character('b'), character('a'))
    );
    assert_ne!(character('a'), character('b'));
    assert_ne!(
        alternation(character('a'), character('b')),
        concatenation(character('a'), character('b'))
    );
}
