use regex_ast::parser::{
    expect_character, parse_character, parse_expression, parse_quantifier, parse_regex,
    ParseError,
};
use regex_ast::{
    alternation, character, concatenation, repetition, Quantifier, QuantifierModifier,
    QuantifierType,
};

#[test]
fn should_parse_character() {
    let input = "a";
    assert_eq!(parse_expression(input), Ok((character('a'), "")));
}

#[test]
fn should_parse_alternation() {
    let input = "a|b|c";
    assert_eq!(
        parse_expression(input),
        Ok((
            alternation(alternation(character('a'), character('b')), character('c')),
            ""
        ))
    );
}

#[test]
fn should_parse_concatenation() {
    let input = "ab";
    assert_eq!(
        parse_expression(input),
        Ok((concatenation(character('a'), character('b')), ""))
    );
}

#[test]
fn should_parse_repetition() {
    let input = "a*";
    assert_eq!(
        parse_expression(input),
        Ok((
            repetition(
                character('a'),
                Quantifier(QuantifierType::ZeroOrMore, QuantifierModifier::Greedy)
            ),
            ""
        ))
    );
}

#[test]
fn should_parse_precedence() {
    let input = "a|(bc)*|d";
    assert_eq!(
        parse_expression(input),
        Ok((
            alternation(
                alternation(
                    character('a'),
                    repetition(
                        concatenation(character('b'), character('c')),
                        Quantifier(QuantifierType::ZeroOrMore, QuantifierModifier::Greedy)
                    ),
                ),
                character('d')
            ),
            ""
        ))
    );
}

#[test]
fn should_reject_invalid() {
    let input = "d++|e";
    assert_eq!(parse_regex(input), None);
}

#[test]
fn empty_input_is_rejected() {
    assert_eq!(parse_regex(""), None);
}

#[test]
fn single_character_parses_fully() {
    assert_eq!(parse_regex("a"), Some(character('a')));
}

#[test]
fn alternation_parses_fully() {
    assert_eq!(
        parse_regex("a|b|c"),
        Some(alternation(
            alternation(character('a'), character('b')),
            character('c')
        ))
    );
}

#[test]
fn double_quantifier_is_rejected() {
    assert_eq!(parse_regex("d++"), None);
}

#[test]
fn unterminated_group_is_rejected() {
    assert_eq!(parse_regex("(a"), None);
}

#[test]
fn trailing_input_is_rejected() {
    assert_eq!(parse_regex("a)"), None);
    assert_eq!(parse_regex("a|"), None);
}

#[test]
fn quantifier_kinds() {
    assert_eq!(
        parse_regex("a?"),
        Some(repetition(
            character('a'),
            Quantifier(QuantifierType::ZeroOrOne, QuantifierModifier::Greedy)
        ))
    );
    assert_eq!(
        parse_regex("a+"),
        Some(repetition(
            character('a'),
            Quantifier(QuantifierType::OneOrMore, QuantifierModifier::Greedy)
        ))
    );
}

#[test]
fn alphabet_range_bounds() {
    // The accepted range is exactly 'A' ..= 'z', punctuation between the
    // letter blocks included.
    assert_eq!(parse_regex("A"), Some(character('A')));
    assert_eq!(parse_regex("z"), Some(character('z')));
    assert_eq!(parse_regex("["), Some(character('[')));
    assert_eq!(parse_regex("_"), Some(character('_')));
    assert_eq!(parse_regex("@"), None);
    assert_eq!(parse_regex("{"), None);
    assert_eq!(parse_regex("0"), None);
}

#[test]
fn reparsing_gives_equal_trees() {
    let input = "a|(bc)*|d";
    assert_eq!(parse_regex(input), parse_regex(input));
    assert_eq!(parse_expression(input), parse_expression(input));
}

#[test]
fn error_kinds_at_the_leaves() {
    assert_eq!(parse_character(""), Err(ParseError::EndOfInput));
    assert_eq!(parse_character("0"), Err(ParseError::UnexpectedCharacter));
    assert_eq!(parse_quantifier(""), Err(ParseError::EndOfInput));
    assert_eq!(parse_quantifier("x"), Err(ParseError::InvalidQuantifier));
    assert_eq!(expect_character("", '('), Err(ParseError::EndOfInput));
    assert_eq!(
        expect_character("a", '('),
        Err(ParseError::UnexpectedCharacter)
    );
    assert_eq!(expect_character("(a", '('), Ok(((), "a")));
}

#[test]
fn group_only_changes_grouping() {
    assert_eq!(
        parse_regex("(ab)c"),
        Some(concatenation(
            concatenation(character('a'), character('b')),
            character('c')
        ))
    );
    assert_eq!(
        parse_regex("abc"),
        Some(concatenation(
            concatenation(character('a'), character('b')),
            character('c')
        ))
    );
}
