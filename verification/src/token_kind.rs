//! The kinds of token that the lexer produces, and the number under which a
//! syntax tree stores each.

use vstd::prelude::*;
use vstd::std_specs::convert::FromSpecImpl;

verus! {

/// `rowan::SyntaxKind`, the tag that a syntax tree of `rowan` puts on each
/// token and node: a wrapper of one public `u16`.
#[verifier::external_type_specification]
pub struct ExSyntaxKind(rowan::SyntaxKind);

/// Tokens generated by the lexer.
#[derive(Debug, Clone, Copy, PartialEq, Eq, Structural)]
pub enum TokenKind {
    /// `!`
    Bang,
    /// `$`
    Dollar,
    /// `...`
    Spread,
    /// `,`
    Comma,
    /// `:`
    Colon,
    /// `=`
    Eq,
    /// `@`
    At,
    /// `(`
    LParen,
    /// `)`
    RParen,
    /// `[`
    LBracket,
    /// `]`
    RBracket,
    /// `{`
    LCurly,
    /// `}`
    RCurly,
    /// `|`
    Pipe,
    On,
    Eof,
    // composite nodes
    Node,
    StringValue,
    Null,
    Boolean,
    Int,
    Float,
    // root node
    Root,
}

impl TokenKind {
    /// The number of a kind: its position in the declaration, from zero.
    pub open spec fn ordinal(self) -> u16 {
        match self {
            TokenKind::Bang => 0,
            TokenKind::Dollar => 1,
            TokenKind::Spread => 2,
            TokenKind::Comma => 3,
            TokenKind::Colon => 4,
            TokenKind::Eq => 5,
            TokenKind::At => 6,
            TokenKind::LParen => 7,
            TokenKind::RParen => 8,
            TokenKind::LBracket => 9,
            TokenKind::RBracket => 10,
            TokenKind::LCurly => 11,
            TokenKind::RCurly => 12,
            TokenKind::Pipe => 13,
            TokenKind::On => 14,
            TokenKind::Eof => 15,
            TokenKind::Node => 16,
            TokenKind::StringValue => 17,
            TokenKind::Null => 18,
            TokenKind::Boolean => 19,
            TokenKind::Int => 20,
            TokenKind::Float => 21,
            TokenKind::Root => 22,
        }
    }

    pub fn to_raw(self) -> (raw: u16)
        ensures
            raw == self.ordinal(),
    {
        match self {
            TokenKind::Bang => 0,
            TokenKind::Dollar => 1,
            TokenKind::Spread => 2,
            TokenKind::Comma => 3,
            TokenKind::Colon => 4,
            TokenKind::Eq => 5,
            TokenKind::At => 6,
            TokenKind::LParen => 7,
            TokenKind::RParen => 8,
            TokenKind::LBracket => 9,
            TokenKind::RBracket => 10,
            TokenKind::LCurly => 11,
            TokenKind::RCurly => 12,
            TokenKind::Pipe => 13,
            TokenKind::On => 14,
            TokenKind::Eof => 15,
            TokenKind::Node => 16,
            TokenKind::StringValue => 17,
            TokenKind::Null => 18,
            TokenKind::Boolean => 19,
            TokenKind::Int => 20,
            TokenKind::Float => 21,
            TokenKind::Root => 22,
        }
    }
}

impl From<TokenKind> for rowan::SyntaxKind {
    fn from(kind: TokenKind) -> (syntax_kind: rowan::SyntaxKind) {
        rowan::SyntaxKind(kind.to_raw())
    }
}

impl FromSpecImpl<TokenKind> for rowan::SyntaxKind {
    open spec fn obeys_from_spec() -> bool {
        true
    }

    open spec fn from_spec(kind: TokenKind) -> rowan::SyntaxKind {
        rowan::SyntaxKind(kind.ordinal())
    }
}

} // verus!
