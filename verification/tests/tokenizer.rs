use nea::error::ErrorType;
use nea::token::{Literal, Token, TokenType};
use nea::tokenizer::Tokenizer;


fn tokenize(source: &str) -> Result<Vec<Token>, ErrorType> {
    let mut tokenizer = Tokenizer::new(source);
    tokenizer.tokenize()
}

#[test]
fn one_char_tokens() {
    let source = "( ) { } [ ] : , . - % + ; / *";
    assert_eq!(Err(ErrorType::UnexpectedCharacter { character: '.', line: 1 }), tokenize(source));
    let source = "( ) { } [ ] : , - % + ; / *";
    assert_eq!(Ok(vec![
        Token { type_: TokenType::LeftParen, lexeme: String::from("("), literal: Literal::Null, line: 1 },
        Token { type_: TokenType::RightParen, lexeme: String::from(")"), literal: Literal::Null, line: 1 },
        Token { type_: TokenType::LeftCurly, lexeme: String::from("{"), literal: Literal::Null, line: 1 },
        Token { type_: TokenType::RightCurly, lexeme: String::from("}"), literal: Literal::Null, line: 1 },
        Token { type_: TokenType::LeftSquare, lexeme: String::from("["), literal: Literal::Null, line: 1 },
        Token { type_: TokenType::RightSquare, lexeme: String::from("]"), literal: Literal::Null, line: 1 },
        Token { type_: TokenType::Colon, lexeme: String::from(":"), literal: Literal::Null, line: 1 },
        Token { type_: TokenType::Comma, lexeme: String::from(","), literal: Literal::Null, line: 1 },
        Token { type_: TokenType::Minus, lexeme: String::from("-"), literal: Literal::Null, line: 1 },
        Token { type_: TokenType::Percent, lexeme: String::from("%"), literal: Literal::Null, line: 1 },
        Token { type_: TokenType::Plus, lexeme: String::from("+"), literal: Literal::Null, line: 1 },
        Token { type_: TokenType::Semicolon, lexeme: String::from(";"), literal: Literal::Null, line: 1 },
        Token { type_: TokenType::Slash, lexeme: String::from("/"), literal: Literal::Null, line: 1 },
        Token { type_: TokenType::Star, lexeme: String::from("*"), literal: Literal::Null, line: 1 },
        Token { type_: TokenType::Eof, lexeme: String::from(""), literal: Literal::Null, line: 1 },
    ]), tokenize(source));
}

#[test]
fn one_two_char_tokens() {
    let source = "! != = == > >= < <=";
    assert_eq!(Ok(vec![
        Token { type_: TokenType::Bang, lexeme: String::from("!"), literal: Literal::Null, line: 1 },
        Token { type_: TokenType::BangEqual, lexeme: String::from("!="), literal: Literal::Null, line: 1 },
        Token { type_: TokenType::Equal, lexeme: String::from("="), literal: Literal::Null, line: 1 },
        Token { type_: TokenType::EqualEqual, lexeme: String::from("=="), literal: Literal::Null, line: 1 },
        Token { type_: TokenType::Greater, lexeme: String::from(">"), literal: Literal::Null, line: 1 },
        Token { type_: TokenType::GreaterEqual, lexeme: String::from(">="), literal: Literal::Null, line: 1 },
        Token { type_: TokenType::Less, lexeme: String::from("<"), literal: Literal::Null, line: 1 },
        Token { type_: TokenType::LessEqual, lexeme: String::from("<="), literal: Literal::Null, line: 1 },
        Token { type_: TokenType::Eof, lexeme: String::from(""), literal: Literal::Null, line: 1 },
    ]), tokenize(source));
}

#[test]
fn literals() {
    let source = "\"abc\" 123 \"abc123\" 123.5 \"\" 123abc 5.5.5";
    assert_eq!(Err(ErrorType::UnexpectedCharacter { character: '.', line: 1 }), tokenize(source));
    let source = "\"abc\" 123 \"abc123\" 123.5 \"\" 123abc 5.5 5";
    assert_eq!(Ok(vec![
        Token { type_: TokenType::String_, lexeme: String::from("\"abc\""), literal: Literal::String_(String::from("abc")), line: 1 },
        Token { type_: TokenType::Number, lexeme: String::from("123"), literal: Literal::Number(String::from("123")), line: 1 },
        Token { type_: TokenType::String_, lexeme: String::from("\"abc123\""), literal: Literal::String_(String::from("abc123")), line: 1 },
        Token { type_: TokenType::Number, lexeme: String::from("123.5"), literal: Literal::Number(String::from("123.5")), line: 1 },
        Token { type_: TokenType::String_, lexeme: String::from("\"\""), literal: Literal::String_(String::from("")), line: 1 },
        Token { type_: TokenType::Number, lexeme: String::from("123"), literal: Literal::Number(String::from("123")), line: 1 },
        Token { type_: TokenType::Identifier, lexeme: String::from("abc"), literal: Literal::Null, line: 1 },
        Token { type_: TokenType::Number, lexeme: String::from("5.5"), literal: Literal::Number(String::from("5.5")), line: 1 },
        Token { type_: TokenType::Number, lexeme: String::from("5"), literal: Literal::Number(String::from("5")), line: 1 },
        Token { type_: TokenType::Eof, lexeme: String::from(""), literal: Literal::Null, line: 1 },
    ]), tokenize(source));
}

#[test]
fn line_count() {
    let source = "12\n23";
    assert_eq!(Ok(vec![
        Token { type_: TokenType::Number, lexeme: String::from("12"), literal: Literal::Number(String::from("12")), line: 1 },
        Token { type_: TokenType::Number, lexeme: String::from("23"), literal: Literal::Number(String::from("23")), line: 2 },
        Token { type_: TokenType::Eof, lexeme: String::from(""), literal: Literal::Null, line: 2 },
    ]), tokenize(source));
}

#[test]
fn unterminated_string() {
    let source = "\"abc\nabc\nabc";
    assert_eq!(Err(ErrorType::UnterminatedString), tokenize(source));
}

#[test]
fn identifiers_and_keywords() {
    let source = "a a2 if and or ifandor";
    assert_eq!(Ok(vec![
        Token { type_: TokenType::Identifier, lexeme: String::from("a"), literal: Literal::Null, line: 1 },
        Token { type_: TokenType::Identifier, lexeme: String::from("a2"), literal: Literal::Null, line: 1 },
        Token { type_: TokenType::If, lexeme: String::from("if"), literal: Literal::Null, line: 1 },
        Token { type_: TokenType::And, lexeme: String::from("and"), literal: Literal::Null, line: 1 },
        Token { type_: TokenType::Or, lexeme: String::from("or"), literal: Literal::Null, line: 1 },
        Token { type_: TokenType::Identifier, lexeme: String::from("ifandor"), literal: Literal::Null, line: 1 },
        Token { type_: TokenType::Eof, lexeme: String::from(""), literal: Literal::Null, line: 1 },
    ]), tokenize(source));
}

#[test]
fn comments() {
    let source = "1\n#abc\n#abc\n1";
    assert_eq!(Ok(vec![
        Token { type_: TokenType::Number, lexeme: String::from("1"), literal: Literal::Number(String::from("1")), line: 1 },
        Token { type_: TokenType::Number, lexeme: String::from("1"), literal: Literal::Number(String::from("1")), line: 4 },
        Token { type_: TokenType::Eof, lexeme: String::from(""), literal: Literal::Null, line: 4 },
    ]), tokenize(source));
}

#[test]
fn number_followed_by_a_dot() {
    assert_eq!(Err(ErrorType::UnexpectedCharacter { character: '.', line: 1 }), tokenize("5."));
    assert_eq!(Err(ErrorType::UnexpectedCharacter { character: '.', line: 2 }), tokenize("1\n2.x"));
    assert_eq!(Err(ErrorType::UnexpectedCharacter { character: '.', line: 1 }), tokenize(".5"));
}

#[test]
fn string_over_several_lines() {
    assert_eq!(Ok(vec![
        Token { type_: TokenType::String_, lexeme: String::from("\"a\nb\""), literal: Literal::String_(String::from("a\nb")), line: 1 },
        Token { type_: TokenType::Eof, lexeme: String::from(""), literal: Literal::Null, line: 1 },
    ]), tokenize("\"a\nb\""));
    assert_eq!(Err(ErrorType::UnterminatedString), tokenize("'abc"));
    assert_eq!(Err(ErrorType::UnterminatedString), tokenize("\""));
}

#[test]
fn single_quoted_string_holds_double_quotes() {
    assert_eq!(Ok(vec![
        Token { type_: TokenType::String_, lexeme: String::from("'say \"hi\"'"), literal: Literal::String_(String::from("say \"hi\"")), line: 1 },
        Token { type_: TokenType::Eof, lexeme: String::from(""), literal: Literal::Null, line: 1 },
    ]), tokenize("'say \"hi\"'"));
}

#[test]
fn literal_keywords() {
    assert_eq!(Ok(vec![
        Token { type_: TokenType::True, lexeme: String::from("true"), literal: Literal::Bool(true), line: 1 },
        Token { type_: TokenType::False, lexeme: String::from("false"), literal: Literal::Bool(false), line: 1 },
        Token { type_: TokenType::Null, lexeme: String::from("null"), literal: Literal::Null, line: 1 },
        Token { type_: TokenType::Identifier, lexeme: String::from("Null"), literal: Literal::Null, line: 1 },
        Token { type_: TokenType::Eof, lexeme: String::from(""), literal: Literal::Null, line: 1 },
    ]), tokenize("true false null Null"));
}

#[test]
fn all_keywords() {
    let kinds: Vec<TokenType> = tokenize("and break else false for func if null or print return true var while _x9")
        .unwrap()
        .into_iter()
        .map(|token| token.type_)
        .collect();
    assert_eq!(kinds, vec![
        TokenType::And, TokenType::Break, TokenType::Else, TokenType::False, TokenType::For, TokenType::Func,
        TokenType::If, TokenType::Null, TokenType::Or, TokenType::Print, TokenType::Return, TokenType::True,
        TokenType::Var, TokenType::While, TokenType::Identifier, TokenType::Eof,
    ]);
}

#[test]
fn unexpected_character_carries_its_line() {
    assert_eq!(Err(ErrorType::UnexpectedCharacter { character: '@', line: 3 }), tokenize("a\n# note\n @"));
    assert_eq!(Err(ErrorType::UnexpectedCharacter { character: 'é', line: 1 }), tokenize("é"));
}

#[test]
fn comment_at_the_end() {
    assert_eq!(Ok(vec![
        Token { type_: TokenType::Identifier, lexeme: String::from("a"), literal: Literal::Null, line: 1 },
        Token { type_: TokenType::Eof, lexeme: String::from(""), literal: Literal::Null, line: 1 },
    ]), tokenize("a # no line end"));
}

#[test]
fn lexemes_are_cut_by_characters() {
    assert_eq!(Ok(vec![
        Token { type_: TokenType::String_, lexeme: String::from("\"é\""), literal: Literal::String_(String::from("é")), line: 1 },
        Token { type_: TokenType::Identifier, lexeme: String::from("x"), literal: Literal::Null, line: 1 },
        Token { type_: TokenType::Eof, lexeme: String::from(""), literal: Literal::Null, line: 1 },
    ]), tokenize("\"é\"x"));
}

#[test]
fn numerals_are_kept_in_shortest_form() {
    for (written, kept) in [
        ("1", "1"), ("1.0", "1"), ("01", "1"), ("007.50", "7.5"), ("0", "0"), ("000", "0"), ("0.0", "0"),
        ("0.50", "0.5"), ("10", "10"), ("100.001", "100.001"), ("10.10", "10.1"),
    ] {
        let tokens = tokenize(written).unwrap();
        assert_eq!(tokens[0].lexeme, written);
        assert_eq!(tokens[0].literal, Literal::Number(String::from(kept)), "{}", written);
        assert_eq!(written.parse::<f64>().unwrap(), kept.parse::<f64>().unwrap());
    }
}
