//! The mathematical model of scanning: what one call that produces a
//! token does to the source cursor, stated as pure functions over the
//! source byte sequence.

use vstd::prelude::*;
use crate::token::{SpecToken, SpecTokenKind};

verus! {

/// A scanning failure, carrying the line/column of the offending lexeme.
#[derive(Debug, Clone, PartialEq, Eq)]
pub enum LexError {
    /// A byte that starts none of the recognized lexeme classes.
    UnexpectedCharacter { byte: u8, line: u32, column: u32 },
    /// An opening quote with no matching closing quote before end-of-input;
    /// the position is the opening quote's.
    UnterminatedString { line: u32, column: u32 },
    /// A digit run whose value exceeds the unsigned 64-bit range; the text
    /// is the entire run.
    IntegerOverflow { line: u32, column: u32, text: Vec<u8> },
}

/// Mathematical model of a [`LexError`].
pub ghost enum SpecLexError {
    UnexpectedCharacter { byte: u8, line: int, column: int },
    UnterminatedString { line: int, column: int },
    IntegerOverflow { line: int, column: int, text: Seq<u8> },
}

impl View for LexError {
    type V = SpecLexError;

    open spec fn view(&self) -> SpecLexError {
        match self {
            LexError::UnexpectedCharacter { byte, line, column } => {
                SpecLexError::UnexpectedCharacter {
                    byte: *byte,
                    line: *line as int,
                    column: *column as int,
                }
            },
            LexError::UnterminatedString { line, column } => {
                SpecLexError::UnterminatedString { line: *line as int, column: *column as int }
            },
            LexError::IntegerOverflow { line, column, text } => {
                SpecLexError::IntegerOverflow {
                    line: *line as int,
                    column: *column as int,
                    text: text@,
                }
            },
        }
    }
}

/// A cursor into the source: byte offset plus the 1-based line and
/// 0-based column of that offset.
pub ghost struct SpecCursor {
    pub cursor: int,
    pub line: int,
    pub column: int,
}

/// Space or horizontal tab.
pub open spec fn is_blank_byte(b: u8) -> bool {
    b == 32 || b == 9
}

/// A byte that begins a line terminator (`\n`, or `\r` possibly followed
/// by `\n`).
pub open spec fn is_line_term_byte(b: u8) -> bool {
    b == 10 || b == 13
}

pub open spec fn is_digit_byte(b: u8) -> bool {
    48 <= b && b <= 57
}

pub open spec fn is_alpha_byte(b: u8) -> bool {
    (65 <= b && b <= 90) || (97 <= b && b <= 122)
}

/// A byte that may begin an identifier: an ASCII letter or `_`.
pub open spec fn is_ident_start_byte(b: u8) -> bool {
    is_alpha_byte(b) || b == 95
}

/// A byte that may continue an identifier: an ASCII letter, digit or `_`.
pub open spec fn is_ident_byte(b: u8) -> bool {
    is_ident_start_byte(b) || is_digit_byte(b)
}

/// A string literal delimiter: `"` or a backtick.
pub open spec fn is_quote_byte(b: u8) -> bool {
    b == 34 || b == 96
}

/// One of the nine structural punctuation bytes.
pub open spec fn is_punct_byte(b: u8) -> bool {
    b == 123 || b == 125 || b == 40 || b == 41 || b == 44 || b == 59 || b == 61 || b == 60
        || b == 62
}

/// The token kind of a structural punctuation byte.
pub open spec fn punct_kind(b: u8) -> SpecTokenKind {
    if b == 123 {
        SpecTokenKind::LBrace
    } else if b == 125 {
        SpecTokenKind::RBrace
    } else if b == 40 {
        SpecTokenKind::LParen
    } else if b == 41 {
        SpecTokenKind::RParen
    } else if b == 44 {
        SpecTokenKind::Comma
    } else if b == 59 {
        SpecTokenKind::Semicolon
    } else if b == 61 {
        SpecTokenKind::Equals
    } else if b == 60 {
        SpecTokenKind::LAngle
    } else {
        SpecTokenKind::RAngle
    }
}

/// Where the cursor lands after consuming every space, tab, line
/// terminator and `//` line comment in front of it.
///
/// Consuming `\n`, `\r` or `\r\n` advances the line count by one and
/// resets the column; every other consumed byte advances the column.
/// With `in_comment` set the cursor sits inside a `//` comment and
/// consumes up to, but not including, the next line terminator.
pub open spec fn skip_ws_from(src: Seq<u8>, c: SpecCursor, in_comment: bool) -> SpecCursor
    decreases src.len() - c.cursor, (if in_comment { 1int } else { 0int }),
{
    if c.cursor < 0 || c.cursor >= src.len() {
        c
    } else if in_comment {
        if is_line_term_byte(src[c.cursor]) {
            skip_ws_from(src, c, false)
        } else {
            skip_ws_from(
                src,
                SpecCursor { cursor: c.cursor + 1, line: c.line, column: c.column + 1 },
                true,
            )
        }
    } else {
        let b = src[c.cursor];
        if is_blank_byte(b) {
            skip_ws_from(
                src,
                SpecCursor { cursor: c.cursor + 1, line: c.line, column: c.column + 1 },
                false,
            )
        } else if b == 10 {
            skip_ws_from(src, SpecCursor { cursor: c.cursor + 1, line: c.line + 1, column: 0 }, false)
        } else if b == 13 {
            if c.cursor + 1 < src.len() && src[c.cursor + 1] == 10 {
                skip_ws_from(
                    src,
                    SpecCursor { cursor: c.cursor + 2, line: c.line + 1, column: 0 },
                    false,
                )
            } else {
                skip_ws_from(
                    src,
                    SpecCursor { cursor: c.cursor + 1, line: c.line + 1, column: 0 },
                    false,
                )
            }
        } else if b == 47 && c.cursor + 1 < src.len() && src[c.cursor + 1] == 47 {
            skip_ws_from(
                src,
                SpecCursor { cursor: c.cursor + 2, line: c.line, column: c.column + 2 },
                true,
            )
        } else {
            c
        }
    }
}

/// The offset of the first occurrence of `d` at or after `i`, if any.
pub open spec fn find_delim(src: Seq<u8>, i: int, d: u8) -> Option<int>
    decreases src.len() - i,
{
    if i < 0 || i >= src.len() {
        None
    } else if src[i] == d {
        Some(i)
    } else {
        find_delim(src, i + 1, d)
    }
}

/// The offset just past the maximal identifier-byte run starting at `i`.
pub open spec fn ident_end(src: Seq<u8>, i: int) -> int
    decreases src.len() - i,
{
    if i < 0 || i >= src.len() {
        src.len() as int
    } else if is_ident_byte(src[i]) {
        ident_end(src, i + 1)
    } else {
        i
    }
}

/// The offset just past the maximal digit run starting at `i`.
pub open spec fn digits_end(src: Seq<u8>, i: int) -> int
    decreases src.len() - i,
{
    if i < 0 || i >= src.len() {
        src.len() as int
    } else if is_digit_byte(src[i]) {
        digits_end(src, i + 1)
    } else {
        i
    }
}

/// The value of a decimal digit run, as an unbounded integer.
pub open spec fn digits_val(s: Seq<u8>) -> int
    decreases s.len(),
{
    if s.len() == 0 {
        0
    } else {
        10 * digits_val(s.drop_last()) + (s.last() - 48)
    }
}

pub open spec fn all_digits(s: Seq<u8>) -> bool {
    forall|i: int| 0 <= i < s.len() ==> is_digit_byte(#[trigger] s[i])
}

pub open spec fn kw_as() -> Seq<u8> {
    seq![97u8, 115u8]
}

pub open spec fn kw_map() -> Seq<u8> {
    seq![77u8, 65u8, 80u8]
}

pub open spec fn kw_enum() -> Seq<u8> {
    seq![101u8, 110u8, 117u8, 109u8]
}

pub open spec fn kw_void() -> Seq<u8> {
    seq![118u8, 111u8, 105u8, 100u8]
}

pub open spec fn kw_array() -> Seq<u8> {
    seq![65u8, 114u8, 114u8, 97u8, 121u8]
}

pub open spec fn kw_import() -> Seq<u8> {
    seq![105u8, 109u8, 112u8, 111u8, 114u8, 116u8]
}

pub open spec fn kw_service() -> Seq<u8> {
    seq![115u8, 101u8, 114u8, 118u8, 105u8, 99u8, 101u8]
}

pub open spec fn kw_message() -> Seq<u8> {
    seq![109u8, 101u8, 115u8, 115u8, 97u8, 103u8, 101u8]
}

pub open spec fn kw_optional() -> Seq<u8> {
    seq![111u8, 112u8, 116u8, 105u8, 111u8, 110u8, 97u8, 108u8]
}

pub open spec fn kw_required() -> Seq<u8> {
    seq![114u8, 101u8, 113u8, 117u8, 105u8, 114u8, 101u8, 100u8]
}

/// Classify an identifier run: the matching keyword kind under exact,
/// case-sensitive comparison against the reserved words, else an
/// identifier with the run as its spelling.
pub open spec fn keyword_or_ident(s: Seq<u8>) -> SpecTokenKind {
    if s == kw_as() {
        SpecTokenKind::KwAs
    } else if s == kw_map() {
        SpecTokenKind::KwMap
    } else if s == kw_enum() {
        SpecTokenKind::KwEnum
    } else if s == kw_void() {
        SpecTokenKind::KwVoid
    } else if s == kw_array() {
        SpecTokenKind::KwArray
    } else if s == kw_import() {
        SpecTokenKind::KwImport
    } else if s == kw_service() {
        SpecTokenKind::KwService
    } else if s == kw_message() {
        SpecTokenKind::KwMessage
    } else if s == kw_optional() {
        SpecTokenKind::KwOptional
    } else if s == kw_required() {
        SpecTokenKind::KwRequired
    } else {
        SpecTokenKind::Identifier(s)
    }
}

/// A digit run's value is never negative.
pub proof fn lemma_digits_val_nonneg(s: Seq<u8>)
    requires
        all_digits(s),
    ensures
        digits_val(s) >= 0,
    decreases s.len(),
{
    if s.len() > 0 {
        assert forall|i: int| 0 <= i < s.drop_last().len() implies is_digit_byte(
            #[trigger] s.drop_last()[i],
        ) by {
            assert(s.drop_last()[i] == s[i]);
        }
        lemma_digits_val_nonneg(s.drop_last());
        assert(is_digit_byte(s[s.len() - 1]));
    }
}

/// The value of a digit run is at least the value of any of its
/// prefixes: appending digits never shrinks the value.
pub proof fn lemma_digits_val_prefix_le(s: Seq<u8>, k: int)
    requires
        all_digits(s),
        0 <= k <= s.len(),
    ensures
        digits_val(s.subrange(0, k)) <= digits_val(s),
    decreases s.len(),
{
    if k == s.len() {
        assert(s.subrange(0, k) =~= s);
    } else {
        let d = s.drop_last();
        assert forall|i: int| 0 <= i < d.len() implies is_digit_byte(#[trigger] d[i]) by {
            assert(d[i] == s[i]);
        }
        lemma_digits_val_prefix_le(d, k);
        assert(s.subrange(0, k) =~= d.subrange(0, k));
        lemma_digits_val_nonneg(d);
        assert(is_digit_byte(s[s.len() - 1]));
    }
}

/// What classifying the lexeme that starts exactly at `c` produces, and
/// where the cursor lands: the token (or error) and the new cursor.
/// `c` must already sit past any whitespace and comments.  A lexeme
/// advances the column by its whole byte length and never the line, so
/// a string literal with embedded line terminators still counts as part
/// of the line it opened on.
pub open spec fn scan_at(src: Seq<u8>, c: SpecCursor) -> (Result<SpecToken, SpecLexError>, SpecCursor) {
    if c.cursor >= src.len() {
        (
            Ok(
                SpecToken {
                    kind: SpecTokenKind::EndOfInput,
                    content: Seq::empty(),
                    line: c.line,
                    column: c.column,
                },
            ),
            c,
        )
    } else {
        let b = src[c.cursor];
        if is_punct_byte(b) {
            (
                Ok(
                    SpecToken {
                        kind: punct_kind(b),
                        content: seq![b],
                        line: c.line,
                        column: c.column,
                    },
                ),
                SpecCursor { cursor: c.cursor + 1, line: c.line, column: c.column + 1 },
            )
        } else if is_quote_byte(b) {
            match find_delim(src, c.cursor + 1, b) {
                None => (
                    (Err(SpecLexError::UnterminatedString { line: c.line, column: c.column }), c)
                ),
                Some(j) => (
                    (
                        Ok(
                            SpecToken {
                                kind: SpecTokenKind::StringLiteral(src.subrange(c.cursor + 1, j)),
                                content: src.subrange(c.cursor, j + 1),
                                line: c.line,
                                column: c.column,
                            },
                        ),
                        SpecCursor {
                            cursor: j + 1,
                            line: c.line,
                            column: c.column + (j + 1 - c.cursor),
                        },
                    )
                ),
            }
        } else if is_ident_start_byte(b) {
            let e = ident_end(src, c.cursor + 1);
            let run = src.subrange(c.cursor, e);
            (
                Ok(
                    SpecToken {
                        kind: keyword_or_ident(run),
                        content: run,
                        line: c.line,
                        column: c.column,
                    },
                ),
                SpecCursor { cursor: e, line: c.line, column: c.column + (e - c.cursor) },
            )
        } else if is_digit_byte(b) {
            let e = digits_end(src, c.cursor);
            let run = src.subrange(c.cursor, e);
            if digits_val(run) <= u64::MAX {
                (
                    Ok(
                        SpecToken {
                            kind: SpecTokenKind::IntegerLiteral(digits_val(run) as u64),
                            content: run,
                            line: c.line,
                            column: c.column,
                        },
                    ),
                    SpecCursor { cursor: e, line: c.line, column: c.column + (e - c.cursor) },
                )
            } else {
                (
                    Err(
                        SpecLexError::IntegerOverflow { line: c.line, column: c.column, text: run },
                    ),
                    c,
                )
            }
        } else {
            (Err(SpecLexError::UnexpectedCharacter { byte: b, line: c.line, column: c.column }), c)
        }
    }
}

/// What one token-producing call does from cursor `c`: skip whitespace
/// and comments, then classify the lexeme at the landing point.
pub open spec fn scan_result(src: Seq<u8>, c: SpecCursor) -> (Result<SpecToken, SpecLexError>, SpecCursor) {
    scan_at(src, skip_ws_from(src, c, false))
}

/// Skipping whitespace and comments never moves the cursor backwards
/// nor past the end of the buffer.
pub proof fn lemma_skip_ws_bounds(src: Seq<u8>, c: SpecCursor, in_comment: bool)
    requires
        0 <= c.cursor <= src.len(),
    ensures
        c.cursor <= skip_ws_from(src, c, in_comment).cursor <= src.len(),
    decreases src.len() - c.cursor, (if in_comment { 1int } else { 0int }),
{
    if c.cursor < src.len() {
        if in_comment {
            if is_line_term_byte(src[c.cursor]) {
                lemma_skip_ws_bounds(src, c, false);
            } else {
                lemma_skip_ws_bounds(
                    src,
                    SpecCursor { cursor: c.cursor + 1, line: c.line, column: c.column + 1 },
                    true,
                );
            }
        } else {
            let b = src[c.cursor];
            if is_blank_byte(b) {
                lemma_skip_ws_bounds(
                    src,
                    SpecCursor { cursor: c.cursor + 1, line: c.line, column: c.column + 1 },
                    false,
                );
            } else if b == 10 {
                lemma_skip_ws_bounds(
                    src,
                    SpecCursor { cursor: c.cursor + 1, line: c.line + 1, column: 0 },
                    false,
                );
            } else if b == 13 {
                if c.cursor + 1 < src.len() && src[c.cursor + 1] == 10 {
                    lemma_skip_ws_bounds(
                        src,
                        SpecCursor { cursor: c.cursor + 2, line: c.line + 1, column: 0 },
                        false,
                    );
                } else {
                    lemma_skip_ws_bounds(
                        src,
                        SpecCursor { cursor: c.cursor + 1, line: c.line + 1, column: 0 },
                        false,
                    );
                }
            } else if b == 47 && c.cursor + 1 < src.len() && src[c.cursor + 1] == 47 {
                lemma_skip_ws_bounds(
                    src,
                    SpecCursor { cursor: c.cursor + 2, line: c.line, column: c.column + 2 },
                    true,
                );
            }
        }
    }
}

/// Law: skipping whitespace and comments is idempotent — the cursor it
/// returns is a fixed point, so skipping again with no intervening
/// consumption moves nothing.
pub proof fn lemma_skip_ws_idempotent(src: Seq<u8>, c: SpecCursor, in_comment: bool)
    ensures
        skip_ws_from(src, skip_ws_from(src, c, in_comment), false) == skip_ws_from(
            src,
            c,
            in_comment,
        ),
    decreases src.len() - c.cursor, (if in_comment { 1int } else { 0int }),
{
    if c.cursor < 0 || c.cursor >= src.len() {
    } else if in_comment {
        if is_line_term_byte(src[c.cursor]) {
            lemma_skip_ws_idempotent(src, c, false);
        } else {
            lemma_skip_ws_idempotent(
                src,
                SpecCursor { cursor: c.cursor + 1, line: c.line, column: c.column + 1 },
                true,
            );
        }
    } else {
        let b = src[c.cursor];
        if is_blank_byte(b) {
            lemma_skip_ws_idempotent(
                src,
                SpecCursor { cursor: c.cursor + 1, line: c.line, column: c.column + 1 },
                false,
            );
        } else if b == 10 {
            lemma_skip_ws_idempotent(
                src,
                SpecCursor { cursor: c.cursor + 1, line: c.line + 1, column: 0 },
                false,
            );
        } else if b == 13 {
            if c.cursor + 1 < src.len() && src[c.cursor + 1] == 10 {
                lemma_skip_ws_idempotent(
                    src,
                    SpecCursor { cursor: c.cursor + 2, line: c.line + 1, column: 0 },
                    false,
                );
            } else {
                lemma_skip_ws_idempotent(
                    src,
                    SpecCursor { cursor: c.cursor + 1, line: c.line + 1, column: 0 },
                    false,
                );
            }
        } else if b == 47 && c.cursor + 1 < src.len() && src[c.cursor + 1] == 47 {
            lemma_skip_ws_idempotent(
                src,
                SpecCursor { cursor: c.cursor + 2, line: c.line, column: c.column + 2 },
                true,
            );
        }
    }
}

/// A found delimiter lies at or after the search start, inside the
/// buffer, and is the delimiter byte.
pub proof fn lemma_find_delim_bounds(src: Seq<u8>, i: int, d: u8)
    requires
        0 <= i,
    ensures
        match find_delim(src, i, d) {
            Some(j) => i <= j < src.len() && src[j] == d,
            None => true,
        },
    decreases src.len() - i,
{
    if 0 <= i < src.len() && src[i] != d {
        lemma_find_delim_bounds(src, i + 1, d);
    }
}

/// The end of an identifier run lies between its start and the end of
/// the buffer.
pub proof fn lemma_ident_end_bounds(src: Seq<u8>, i: int)
    requires
        0 <= i <= src.len(),
    ensures
        i <= ident_end(src, i) <= src.len(),
    decreases src.len() - i,
{
    if i < src.len() && is_ident_byte(src[i]) {
        lemma_ident_end_bounds(src, i + 1);
    }
}

/// The end of a digit run lies between its start and the end of the
/// buffer.
pub proof fn lemma_digits_end_bounds(src: Seq<u8>, i: int)
    requires
        0 <= i <= src.len(),
    ensures
        i <= digits_end(src, i) <= src.len(),
    decreases src.len() - i,
{
    if i < src.len() && is_digit_byte(src[i]) {
        lemma_digits_end_bounds(src, i + 1);
    }
}

/// Law: every successfully scanned token's recorded text is the exact
/// source slice it was scanned from — the bytes between the position
/// where skipping whitespace and comments stopped and the position where
/// the scan left the cursor.
pub proof fn lemma_token_text_round_trip(src: Seq<u8>, c: SpecCursor)
    requires
        0 <= c.cursor <= src.len(),
    ensures
        ({
            let a = skip_ws_from(src, c, false);
            let (r, c2) = scan_at(src, a);
            r matches Ok(t) ==> t.content == src.subrange(a.cursor, c2.cursor)
        }),
{
    lemma_skip_ws_bounds(src, c, false);
    let a = skip_ws_from(src, c, false);
    let (r, c2) = scan_at(src, a);
    if a.cursor >= src.len() {
        assert(src.subrange(a.cursor, a.cursor) =~= Seq::<u8>::empty());
    } else {
        let b = src[a.cursor];
        if is_punct_byte(b) {
            assert(src.subrange(a.cursor, a.cursor + 1) =~= seq![b]);
        } else if is_quote_byte(b) {
            lemma_find_delim_bounds(src, a.cursor + 1, b);
        } else if is_ident_start_byte(b) {
            lemma_ident_end_bounds(src, a.cursor + 1);
        } else if is_digit_byte(b) {
            lemma_digits_end_bounds(src, a.cursor);
        }
    }
}

/// Law: a lone line feed, a lone carriage return, and a carriage
/// return/line feed pair are each consumed as one line terminator —
/// the line count grows by exactly one and the column resets to zero.
pub proof fn lemma_line_terminator_step(src: Seq<u8>, c: SpecCursor)
    requires
        0 <= c.cursor < src.len(),
        is_line_term_byte(src[c.cursor]),
    ensures
        ({
            let step: int = if src[c.cursor] == 13 && c.cursor + 1 < src.len() && src[c.cursor + 1]
                == 10 { 2 } else { 1 };
            skip_ws_from(src, c, false) == skip_ws_from(
                src,
                SpecCursor { cursor: c.cursor + step, line: c.line + 1, column: 0 },
                false,
            )
        }),
{
}

} // verus!
