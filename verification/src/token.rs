//! Tokens produced by the scanner, and their mathematical model.

use vstd::prelude::*;

verus! {

/// The classification of one lexeme.
///
/// Structural punctuation and keywords carry no payload; identifiers and
/// string literals carry their spelling as raw source bytes, and integer
/// literals carry the parsed value.
#[derive(Debug, Clone, PartialEq, Eq)]
pub enum TokenKind {
    /// An alphanumeric/underscore run that is not a reserved word; the
    /// payload is its exact spelling.
    Identifier(Vec<u8>),
    /// A decimal digit run, parsed as an unsigned 64-bit value.
    IntegerLiteral(u64),
    /// A quoted string; the payload is the content with the delimiters
    /// stripped and no escape processing.
    StringLiteral(Vec<u8>),
    /// The terminal sentinel: the buffer is exhausted.
    EndOfInput,

    LAngle,    // <
    RAngle,    // >
    Equals,    // =
    Semicolon, // ;
    Comma,     // ,
    LBrace,    // {
    RBrace,    // }
    LParen,    // (
    RParen,    // )

    KwAs,       // as
    KwMap,      // MAP
    KwEnum,     // enum
    KwVoid,     // void
    KwArray,    // Array
    KwImport,   // import
    KwService,  // service
    KwMessage,  // message
    KwOptional, // optional
    KwRequired, // required
}

/// One token: its kind, the exact source slice it was scanned from, and
/// the line/column at which that slice starts.
#[derive(Debug, Clone, PartialEq, Eq)]
pub struct Token {
    /// 1-based line of the token's first byte.
    pub line: u32,
    /// 0-based column of the token's first byte.
    pub column: u32,
    /// The exact source slice the token was scanned from (for string
    /// literals this includes the delimiters).
    pub content: Vec<u8>,
    pub kind: TokenKind,
}

/// Mathematical model of a [`TokenKind`]: byte vectors become sequences.
pub ghost enum SpecTokenKind {
    Identifier(Seq<u8>),
    IntegerLiteral(u64),
    StringLiteral(Seq<u8>),
    EndOfInput,

    LAngle,
    RAngle,
    Equals,
    Semicolon,
    Comma,
    LBrace,
    RBrace,
    LParen,
    RParen,

    KwAs,
    KwMap,
    KwEnum,
    KwVoid,
    KwArray,
    KwImport,
    KwService,
    KwMessage,
    KwOptional,
    KwRequired,
}

/// Mathematical model of a [`Token`].
pub ghost struct SpecToken {
    pub line: int,
    pub column: int,
    pub content: Seq<u8>,
    pub kind: SpecTokenKind,
}

/// An equal copy of a byte vector.
fn copy_bytes(v: &Vec<u8>) -> (r: Vec<u8>)
    ensures
        r@ == v@,
{
    let mut r: Vec<u8> = Vec::new();
    let mut i: usize = 0;
    while i < v.len()
        invariant
            0 <= i <= v@.len(),
            r@ == v@.subrange(0, i as int),
        decreases v@.len() - i,
    {
        r.push(v[i]);
        proof {
            assert(v@.subrange(0, i + 1 as int) =~= v@.subrange(0, i as int).push(v@[i as int]));
        }
        i = i + 1;
    }
    proof {
        assert(v@.subrange(0, v@.len() as int) =~= v@);
    }
    r
}

impl TokenKind {
    /// An equal copy (kinds are immutable once produced).
    pub fn duplicate(&self) -> (r: TokenKind)
        ensures
            r@ == self@,
    {
        match self {
            TokenKind::Identifier(v) => TokenKind::Identifier(copy_bytes(v)),
            TokenKind::IntegerLiteral(n) => TokenKind::IntegerLiteral(*n),
            TokenKind::StringLiteral(v) => TokenKind::StringLiteral(copy_bytes(v)),
            TokenKind::EndOfInput => TokenKind::EndOfInput,
            TokenKind::LAngle => TokenKind::LAngle,
            TokenKind::RAngle => TokenKind::RAngle,
            TokenKind::Equals => TokenKind::Equals,
            TokenKind::Semicolon => TokenKind::Semicolon,
            TokenKind::Comma => TokenKind::Comma,
            TokenKind::LBrace => TokenKind::LBrace,
            TokenKind::RBrace => TokenKind::RBrace,
            TokenKind::LParen => TokenKind::LParen,
            TokenKind::RParen => TokenKind::RParen,
            TokenKind::KwAs => TokenKind::KwAs,
            TokenKind::KwMap => TokenKind::KwMap,
            TokenKind::KwEnum => TokenKind::KwEnum,
            TokenKind::KwVoid => TokenKind::KwVoid,
            TokenKind::KwArray => TokenKind::KwArray,
            TokenKind::KwImport => TokenKind::KwImport,
            TokenKind::KwService => TokenKind::KwService,
            TokenKind::KwMessage => TokenKind::KwMessage,
            TokenKind::KwOptional => TokenKind::KwOptional,
            TokenKind::KwRequired => TokenKind::KwRequired,
        }
    }
}

impl Token {
    /// An equal copy (tokens are immutable once produced).
    pub fn duplicate(&self) -> (r: Token)
        ensures
            r@ == self@,
    {
        Token {
            line: self.line,
            column: self.column,
            content: copy_bytes(&self.content),
            kind: self.kind.duplicate(),
        }
    }
}

impl View for TokenKind {
    type V = SpecTokenKind;

    open spec fn view(&self) -> SpecTokenKind {
        match self {
            TokenKind::Identifier(v) => SpecTokenKind::Identifier(v@),
            TokenKind::IntegerLiteral(n) => SpecTokenKind::IntegerLiteral(*n),
            TokenKind::StringLiteral(v) => SpecTokenKind::StringLiteral(v@),
            TokenKind::EndOfInput => SpecTokenKind::EndOfInput,
            TokenKind::LAngle => SpecTokenKind::LAngle,
            TokenKind::RAngle => SpecTokenKind::RAngle,
            TokenKind::Equals => SpecTokenKind::Equals,
            TokenKind::Semicolon => SpecTokenKind::Semicolon,
            TokenKind::Comma => SpecTokenKind::Comma,
            TokenKind::LBrace => SpecTokenKind::LBrace,
            TokenKind::RBrace => SpecTokenKind::RBrace,
            TokenKind::LParen => SpecTokenKind::LParen,
            TokenKind::RParen => SpecTokenKind::RParen,
            TokenKind::KwAs => SpecTokenKind::KwAs,
            TokenKind::KwMap => SpecTokenKind::KwMap,
            TokenKind::KwEnum => SpecTokenKind::KwEnum,
            TokenKind::KwVoid => SpecTokenKind::KwVoid,
            TokenKind::KwArray => SpecTokenKind::KwArray,
            TokenKind::KwImport => SpecTokenKind::KwImport,
            TokenKind::KwService => SpecTokenKind::KwService,
            TokenKind::KwMessage => SpecTokenKind::KwMessage,
            TokenKind::KwOptional => SpecTokenKind::KwOptional,
            TokenKind::KwRequired => SpecTokenKind::KwRequired,
        }
    }
}

impl View for Token {
    type V = SpecToken;

    open spec fn view(&self) -> SpecToken {
        SpecToken {
            line: self.line as int,
            column: self.column as int,
            content: self.content@,
            kind: self.kind@,
        }
    }
}

} // verus!
