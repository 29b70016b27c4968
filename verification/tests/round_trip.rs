use minilang::Token;
use minilang::render_tokens;
use minilang::tokenize;

fn assert_round_trip(input: &str) {
    let tokens = tokenize(input);
    let rendered = render_tokens(&tokens);
    assert_eq!(tokenize(&rendered), tokens, "round trip of {:?}", input);
}

#[test]
fn rendering_is_lossless_for_scanned_tokens() {
    assert_round_trip("x = 1 + 2 * 3");
    assert_round_trip("x = (5 == 5) && (3 > 2)");
    assert_round_trip("x= 1 + 2 * -3\ny = 4 - 5\nz = 3 % 4");
    assert_round_trip("s = \"hello world\"");
    assert_round_trip("a <= b >= c != d == e && f || g // h ** i");
    assert_round_trip("flag = True\nother = False");
    assert_round_trip("");
    assert_round_trip("x = -9223372036854775808 + 9223372036854775807");
}

#[test]
fn rendering_spells_tokens_out() {
    let tokens = vec![
        Token::Identifier("x".to_string()),
        Token::Assign,
        Token::Number(-42),
        Token::Operator("**".to_string()),
        Token::Number(7),
        Token::EOF,
    ];
    assert_eq!(render_tokens(&tokens), "x = -42 ** 7  ");
    assert_eq!(tokenize(&render_tokens(&tokens)), tokens);
}
