use directive_validation::token_kind::TokenKind;

const ALL: [TokenKind; 23] = [
    TokenKind::Bang,
    TokenKind::Dollar,
    TokenKind::Spread,
    TokenKind::Comma,
    TokenKind::Colon,
    TokenKind::Eq,
    TokenKind::At,
    TokenKind::LParen,
    TokenKind::RParen,
    TokenKind::LBracket,
    TokenKind::RBracket,
    TokenKind::LCurly,
    TokenKind::RCurly,
    TokenKind::Pipe,
    TokenKind::On,
    TokenKind::Eof,
    TokenKind::Node,
    TokenKind::StringValue,
    TokenKind::Null,
    TokenKind::Boolean,
    TokenKind::Int,
    TokenKind::Float,
    TokenKind::Root,
];

#[test]
fn kinds_are_numbered_in_the_order_declared() {
    for (position, kind) in ALL.iter().enumerate() {
        assert_eq!(kind.to_raw() as usize, position);
    }
    assert_eq!(TokenKind::Bang.to_raw(), 0);
    assert_eq!(TokenKind::At.to_raw(), 6);
    assert_eq!(TokenKind::Root.to_raw(), 22);
}

#[test]
fn syntax_kind_carries_the_number_of_the_token_kind() {
    for kind in ALL {
        let syntax_kind: rowan::SyntaxKind = kind.into();
        assert_eq!(syntax_kind, rowan::SyntaxKind(kind.to_raw()));
        assert_eq!(syntax_kind.0, kind.to_raw());
    }
    assert_eq!(rowan::SyntaxKind::from(TokenKind::At), rowan::SyntaxKind(6));
    assert_ne!(rowan::SyntaxKind::from(TokenKind::At), rowan::SyntaxKind::from(TokenKind::On));
}
