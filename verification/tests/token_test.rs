use simia_vm::token::{Token, TokenKind};

#[test]
fn test_token() {
    let token = Token { kind: TokenKind::Identifier, literal: "foo".to_string() };

    assert_eq!(token.kind, TokenKind::Identifier);
    assert_eq!(token.literal, "foo".to_string());
}

#[test]
fn test_token_accessors() {
    let token = Token { kind: TokenKind::Identifier, literal: "foo".to_string() };

    assert_eq!(token.kind(), TokenKind::Identifier);
    assert_eq!(token.literal(), "foo".to_string());
    assert_eq!(TokenKind::Identifier.literal(), "Identifier".to_string());
    assert_eq!(TokenKind::Rparen.literal(), "Rparen".to_string());
}
