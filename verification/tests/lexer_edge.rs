use minilang::Token;
use minilang::tokenize;

#[test]
fn empty_input_yields_only_the_sentinel() {
    assert_eq!(tokenize(""), vec![Token::EOF]);
    assert_eq!(tokenize(" \t\n  "), vec![Token::EOF]);
}

#[test]
fn keywords_and_identifiers() {
    assert_eq!(
        tokenize("True False Truex Fal x_1 _tmp"),
        vec![
            Token::Boolean(true),
            Token::Boolean(false),
            Token::Identifier("Truex".to_string()),
            Token::Identifier("Fal".to_string()),
            Token::Identifier("x_1".to_string()),
            Token::Identifier("_tmp".to_string()),
            Token::EOF,
        ]
    );
}

#[test]
fn string_literals() {
    assert_eq!(
        tokenize("s = \"hello world\""),
        vec![
            Token::Identifier("s".to_string()),
            Token::Assign,
            Token::StringLiteral("hello world".to_string()),
            Token::EOF,
        ]
    );
}

#[test]
fn unterminated_string_takes_the_rest() {
    assert_eq!(
        tokenize("\"abc"),
        vec![Token::StringLiteral("abc".to_string()), Token::EOF]
    );
}

#[test]
fn minus_before_digit_is_a_negative_number() {
    // a digit right after the minus makes one signed number token
    assert_eq!(
        tokenize("x -3"),
        vec![
            Token::Identifier("x".to_string()),
            Token::Number(-3),
            Token::EOF,
        ]
    );
    // a space after the minus keeps it an operator
    assert_eq!(
        tokenize("x - 3"),
        vec![
            Token::Identifier("x".to_string()),
            Token::Operator("-".to_string()),
            Token::Number(3),
            Token::EOF,
        ]
    );
    assert_eq!(
        tokenize("3 - -4"),
        vec![
            Token::Number(3),
            Token::Operator("-".to_string()),
            Token::Number(-4),
            Token::EOF,
        ]
    );
}

#[test]
fn multi_character_operators_are_greedy() {
    assert_eq!(
        tokenize("a <= b >= c != d == e && f || g // h ** i"),
        vec![
            Token::Identifier("a".to_string()),
            Token::Operator("<=".to_string()),
            Token::Identifier("b".to_string()),
            Token::Operator(">=".to_string()),
            Token::Identifier("c".to_string()),
            Token::Operator("!=".to_string()),
            Token::Identifier("d".to_string()),
            Token::Operator("==".to_string()),
            Token::Identifier("e".to_string()),
            Token::Operator("&&".to_string()),
            Token::Identifier("f".to_string()),
            Token::Operator("||".to_string()),
            Token::Identifier("g".to_string()),
            Token::Operator("//".to_string()),
            Token::Identifier("h".to_string()),
            Token::Operator("**".to_string()),
            Token::Identifier("i".to_string()),
            Token::EOF,
        ]
    );
    assert_eq!(
        tokenize("< > = * /"),
        vec![
            Token::Operator("<".to_string()),
            Token::Operator(">".to_string()),
            Token::Assign,
            Token::Operator("*".to_string()),
            Token::Operator("/".to_string()),
            Token::EOF,
        ]
    );
}

#[test]
fn stray_characters_are_skipped() {
    // an unrecognized character, a lone `!`, `&` or `|`: consumed, no token
    assert_eq!(
        tokenize("x ? ! & | # 1"),
        vec![
            Token::Identifier("x".to_string()),
            Token::Number(1),
            Token::EOF,
        ]
    );
}

#[test]
fn numbers_at_the_ends_of_the_signed_range() {
    assert_eq!(
        tokenize("9223372036854775807"),
        vec![Token::Number(i64::MAX), Token::EOF]
    );
    assert_eq!(
        tokenize("-9223372036854775808"),
        vec![Token::Number(i64::MIN), Token::EOF]
    );
}

#[test]
fn numbers_beyond_the_signed_range_are_clamped() {
    assert_eq!(
        tokenize("99999999999999999999999"),
        vec![Token::Number(i64::MAX), Token::EOF]
    );
    assert_eq!(
        tokenize("-99999999999999999999999"),
        vec![Token::Number(i64::MIN), Token::EOF]
    );
}
