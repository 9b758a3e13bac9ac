use cadmus::emulator::calc_lexer::{lex_words, LexerError, RawToken};
use cadmus::emulator::calc_tokens::TokenType;

/// Each token or word as (kind, text); words get no kind.
fn shape(v: Vec<RawToken>) -> Vec<(Option<TokenType>, Option<String>)> {
    v.into_iter()
        .map(|t| match t {
            RawToken::Token(k) => (Some(k.ttype), k.value),
            RawToken::Word(w) => (None, Some(w)),
        })
        .collect()
}

fn word(s: &str) -> (Option<TokenType>, Option<String>) {
    (None, Some(s.to_string()))
}

fn tok(t: TokenType) -> (Option<TokenType>, Option<String>) {
    (Some(t), None)
}

#[test]
fn lex_operators_and_words() {
    assert_eq!(shape(lex_words("a + 12").unwrap()), vec![word("a"), tok(TokenType::Plus), word("12")]);
    assert_eq!(
        shape(lex_words("(x, y)").unwrap()),
        vec![tok(TokenType::OpenParen), word("x"), tok(TokenType::Comma), word("y"), tok(TokenType::CloseParen)]
    );
    assert_eq!(shape(lex_words("a*b/c-d&e").unwrap()).len(), 9);
    assert_eq!(shape(lex_words("a\tb").unwrap()), vec![word("a\tb")]);
    assert_eq!(shape(lex_words("  ").unwrap()), vec![]);
}

#[test]
fn lex_comparisons() {
    assert_eq!(shape(lex_words("a == b").unwrap()), vec![word("a"), tok(TokenType::Eq), word("b")]);
    assert_eq!(shape(lex_words("a = b").unwrap()), vec![word("a"), word("b")]);
    assert_eq!(shape(lex_words("a != b").unwrap()), vec![word("a"), tok(TokenType::Neq), word("b")]);
    assert_eq!(shape(lex_words("a ! b").unwrap()), vec![word("a"), word("b")]);
    assert_eq!(shape(lex_words("x <= 3").unwrap()), vec![word("x"), tok(TokenType::Ltq), word("3")]);
    assert_eq!(shape(lex_words("x < 3").unwrap()), vec![word("x"), tok(TokenType::Lt), word("3")]);
    assert_eq!(shape(lex_words("x >= 3").unwrap()), vec![word("x"), tok(TokenType::Gtq), word("3")]);
    assert_eq!(shape(lex_words("x > 3").unwrap()), vec![word("x"), tok(TokenType::Gt), word("3")]);
}

#[test]
fn lex_strings_and_names() {
    assert_eq!(
        shape(lex_words("\"hi\" & \"\"").unwrap()),
        vec![(Some(TokenType::String), Some("\"hi\"".to_string())), tok(TokenType::Ampersand)]
    );
    assert_eq!(
        shape(lex_words("Table::Field + 1").unwrap()),
        vec![(Some(TokenType::Identifier), Some("Table::Field".to_string())), tok(TokenType::Plus), word("1")]
    );
    assert_eq!(
        shape(lex_words("T::").unwrap()),
        vec![(Some(TokenType::Identifier), Some("T::".to_string()))]
    );
}

#[test]
fn lex_errors() {
    assert_eq!(lex_words("\"open").unwrap_err(), LexerError::UnterminatedString { position: 20 });
    assert_eq!(lex_words("a:b").unwrap_err(), LexerError::InvalidCharacter { character: ':', position: 20 });
}

#[test]
fn lex_checked_reports_a_trailing_operator() {
    use_checked();
}

fn use_checked() {
    assert!(cadmus::emulator::calc_lexer::lex_checked("a <").is_none());
    assert!(cadmus::emulator::calc_lexer::lex_checked("a =").is_none());
    assert!(cadmus::emulator::calc_lexer::lex_checked("x !").is_none());
    assert!(cadmus::emulator::calc_lexer::lex_checked("\"<\"").unwrap().is_ok());
    assert_eq!(
        cadmus::emulator::calc_lexer::lex_checked("a").unwrap().unwrap().len(),
        1
    );
}
