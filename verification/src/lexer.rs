//! The scanner: a cursor over the source bytes with one token of
//! lookahead, verified against the model in [`crate::scan`].

use vstd::prelude::*;
use crate::scan::{
    all_digits, digits_end, digits_val, find_delim, ident_end, is_blank_byte, is_digit_byte,
    is_ident_start_byte, is_line_term_byte, is_punct_byte, is_quote_byte,
    keyword_or_ident, lemma_digits_val_nonneg, lemma_digits_val_prefix_le,
    lemma_skip_ws_idempotent, punct_kind, scan_at, scan_result, skip_ws_from, LexError,
    SpecCursor, SpecLexError,
};
use crate::token::{SpecToken, SpecTokenKind, Token, TokenKind};

verus! {

/// Mathematical model of a [`Lexer`]: the source bytes, the cursor with
/// its line/column, and the cached lookahead token, if any.
pub ghost struct SpecLexer {
    pub src: Seq<u8>,
    pub cursor: int,
    pub line: int,
    pub column: int,
    pub ahead: Option<SpecToken>,
}

/// The cursor component of a lexer model.
pub open spec fn cursor_of(s: SpecLexer) -> SpecCursor {
    SpecCursor { cursor: s.cursor, line: s.line, column: s.column }
}

/// Validity of a lexer state: the cursor stays inside the buffer, the
/// line count exceeds the number of consumed line terminators by one at
/// most, and the column never exceeds the offset.  The length bound
/// keeps line and column representable in 32 bits.
pub open spec fn spec_wf(s: SpecLexer) -> bool {
    &&& s.src.len() < 0xffff_ffff
    &&& 0 <= s.cursor <= s.src.len()
    &&& 1 <= s.line <= 1 + s.cursor
    &&& 0 <= s.column <= s.cursor
}

/// The model of a `Result` handed to the consumer.
pub open spec fn lex_res_view(r: Result<Token, LexError>) -> Result<SpecToken, SpecLexError> {
    match r {
        Ok(t) => Ok(t@),
        Err(e) => Err(e@),
    }
}

/// What `next_token` does to a lexer state: drain the cached lookahead
/// token if there is one, otherwise scan one token (or fail) and leave
/// the cursor where the scan ended.
pub open spec fn spec_next(s: SpecLexer) -> (Result<SpecToken, SpecLexError>, SpecLexer) {
    match s.ahead {
        Some(t) => (Ok(t), SpecLexer { ahead: None, ..s }),
        None => ({
            let (res, c2) = scan_result(s.src, cursor_of(s));
            (
                res,
                SpecLexer {
                    src: s.src,
                    cursor: c2.cursor,
                    line: c2.line,
                    column: c2.column,
                    ahead: None,
                },
            )
        }),
    }
}

/// What `look_ahead` does to a lexer state: return the cached token
/// unchanged, or scan one token and cache it; an error is not cached and
/// leaves the cursor at the offending lexeme.
pub open spec fn spec_peek(s: SpecLexer) -> (Result<SpecToken, SpecLexError>, SpecLexer) {
    match s.ahead {
        Some(t) => (Ok(t), s),
        None => ({
            let (res, c2) = scan_result(s.src, cursor_of(s));
            (
                res,
                SpecLexer {
                    src: s.src,
                    cursor: c2.cursor,
                    line: c2.line,
                    column: c2.column,
                    ahead: match res {
                        Ok(t) => Some(t),
                        Err(_) => None,
                    },
                },
            )
        }),
    }
}

/// The input past the cursor consists only of whitespace and comments:
/// skipping them exhausts the buffer.
pub open spec fn only_blanks_and_comments_from(src: Seq<u8>, c: SpecCursor) -> bool {
    skip_ws_from(src, c, false).cursor == src.len()
}

/// Law: on an input consisting only of whitespace and comments, the
/// next token is end-of-input — no error — and every further call keeps
/// returning that same end-of-input token.
pub proof fn lemma_whitespace_only_end_of_input(s: SpecLexer)
    requires
        s.ahead is None,
        only_blanks_and_comments_from(s.src, cursor_of(s)),
    ensures
        ({
            let (r, s2) = spec_next(s);
            &&& r matches Ok(t) && t.kind == SpecTokenKind::EndOfInput
            &&& spec_next(s2).0 == r
            &&& spec_next(s2).1 == s2
        }),
{
    let (r, s2) = spec_next(s);
    assert(skip_ws_from(s.src, cursor_of(s2), false) == cursor_of(s2));
}

/// Law: end-of-input is a terminal value — once a scan of the buffer
/// produces it, every further call produces the very same token again.
pub proof fn lemma_end_of_input_terminal(s: SpecLexer)
    requires
        s.ahead is None,
    ensures
        ({
            let (r, s2) = spec_next(s);
            (r matches Ok(t) && t.kind == SpecTokenKind::EndOfInput) ==> {
                &&& spec_next(s2).0 == r
                &&& spec_next(s2).1 == s2
            }
        }),
{
    let a = skip_ws_from(s.src, cursor_of(s), false);
    let (r, s2) = spec_next(s);
    if r matches Ok(t) && t.kind == SpecTokenKind::EndOfInput {
        assert(a.cursor >= s.src.len());
        assert(skip_ws_from(s.src, cursor_of(s2), false) == cursor_of(s2));
    }
}

/// Law: one `look_ahead` advances the buffer exactly as far as one
/// `next_token` would, and further `look_ahead` calls return the
/// identical outcome — token or error — without moving the buffer.
pub proof fn lemma_look_ahead_idempotent(s: SpecLexer)
    ensures
        spec_peek(s).1.cursor == spec_next(s).1.cursor,
        spec_peek(s).1.line == spec_next(s).1.line,
        spec_peek(s).1.column == spec_next(s).1.column,
        ({
            let (r1, s1) = spec_peek(s);
            let (r2, s2) = spec_peek(s1);
            r2 == r1 && s2 == s1
        }),
{
    if s.ahead is None {
        lemma_skip_ws_idempotent(s.src, cursor_of(s), false);
    }
}

/// Law: after a `look_ahead`, `next_token` returns the very outcome
/// that was peeked and only drains the cache — the buffer cursor does
/// not move again.
pub proof fn lemma_look_ahead_then_next(s: SpecLexer)
    ensures
        ({
            let (r1, s1) = spec_peek(s);
            let (r2, s2) = spec_next(s1);
            &&& r2 == r1
            &&& s2.src == s1.src
            &&& s2.cursor == s1.cursor
            &&& s2.line == s1.line
            &&& s2.column == s1.column
            &&& s2.ahead is None
        }),
{
    if s.ahead is None {
        lemma_skip_ws_idempotent(s.src, cursor_of(s), false);
    }
}

/// The keyword kind for a reserved spelling, else an identifier whose
/// spelling is the run itself.
fn lookup_keyword(run: Vec<u8>) -> (k: TokenKind)
    ensures
        k@ == keyword_or_ident(run@),
{
    let n = run.len();
    if n == 2 && run[0] == 97 && run[1] == 115 {
        proof {
            assert(run@ =~= crate::scan::kw_as());
        }
        TokenKind::KwAs
    } else if n == 3 && run[0] == 77 && run[1] == 65 && run[2] == 80 {
        proof {
            assert(run@ =~= crate::scan::kw_map());
        }
        TokenKind::KwMap
    } else if n == 4 && run[0] == 101 && run[1] == 110 && run[2] == 117 && run[3] == 109 {
        proof {
            assert(run@ =~= crate::scan::kw_enum());
        }
        TokenKind::KwEnum
    } else if n == 4 && run[0] == 118 && run[1] == 111 && run[2] == 105 && run[3] == 100 {
        proof {
            assert(run@ =~= crate::scan::kw_void());
        }
        TokenKind::KwVoid
    } else if n == 5 && run[0] == 65 && run[1] == 114 && run[2] == 114 && run[3] == 97 && run[4]
        == 121 {
        proof {
            assert(run@ =~= crate::scan::kw_array());
        }
        TokenKind::KwArray
    } else if n == 6 && run[0] == 105 && run[1] == 109 && run[2] == 112 && run[3] == 111 && run[4]
        == 114 && run[5] == 116 {
        proof {
            assert(run@ =~= crate::scan::kw_import());
        }
        TokenKind::KwImport
    } else if n == 7 && run[0] == 115 && run[1] == 101 && run[2] == 114 && run[3] == 118 && run[4]
        == 105 && run[5] == 99 && run[6] == 101 {
        proof {
            assert(run@ =~= crate::scan::kw_service());
        }
        TokenKind::KwService
    } else if n == 7 && run[0] == 109 && run[1] == 101 && run[2] == 115 && run[3] == 115 && run[4]
        == 97 && run[5] == 103 && run[6] == 101 {
        proof {
            assert(run@ =~= crate::scan::kw_message());
        }
        TokenKind::KwMessage
    } else if n == 8 && run[0] == 111 && run[1] == 112 && run[2] == 116 && run[3] == 105 && run[4]
        == 111 && run[5] == 110 && run[6] == 97 && run[7] == 108 {
        proof {
            assert(run@ =~= crate::scan::kw_optional());
        }
        TokenKind::KwOptional
    } else if n == 8 && run[0] == 114 && run[1] == 101 && run[2] == 113 && run[3] == 117 && run[4]
        == 105 && run[5] == 114 && run[6] == 101 && run[7] == 100 {
        proof {
            assert(run@ =~= crate::scan::kw_required());
        }
        TokenKind::KwRequired
    } else {
        TokenKind::Identifier(run)
    }
}

/// The token kind of a structural punctuation byte, if `b` is one.
fn punct_token_kind(b: u8) -> (k: Option<TokenKind>)
    ensures
        match k {
            Some(kk) => is_punct_byte(b) && kk@ == punct_kind(b),
            None => !is_punct_byte(b),
        },
{
    match b {
        123 => Some(TokenKind::LBrace),
        125 => Some(TokenKind::RBrace),
        40 => Some(TokenKind::LParen),
        41 => Some(TokenKind::RParen),
        44 => Some(TokenKind::Comma),
        59 => Some(TokenKind::Semicolon),
        61 => Some(TokenKind::Equals),
        60 => Some(TokenKind::LAngle),
        62 => Some(TokenKind::RAngle),
        _ => None,
    }
}

/// The streaming scanner over one in-memory source buffer.
#[derive(Debug)]
pub struct Lexer {
    /// 1-based line of the byte at `cursor`.
    pub line: u32,
    /// 0-based column of the byte at `cursor`.
    pub column: u32,
    /// Byte offset of the next unconsumed byte.
    pub cursor: usize,
    src_data: Vec<u8>,
    ahead_token: Option<Token>,
}

impl View for Lexer {
    type V = SpecLexer;

    closed spec fn view(&self) -> SpecLexer {
        SpecLexer {
            src: self.src_data@,
            cursor: self.cursor as int,
            line: self.line as int,
            column: self.column as int,
            ahead: match &self.ahead_token {
                Some(t) => Some(t@),
                None => None,
            },
        }
    }
}

impl Lexer {
    /// A fresh scanner over the given source bytes, with the cursor at
    /// the start of line 1 and nothing cached.
    pub fn new(src_data: Vec<u8>) -> (l: Lexer)
        requires
            src_data@.len() < 0xffff_ffff,
        ensures
            l@ == (SpecLexer { src: src_data@, cursor: 0, line: 1, column: 0, ahead: None }),
            spec_wf(l@),
    {
        Lexer { line: 1, column: 0, cursor: 0, src_data, ahead_token: None }
    }

    /// The byte `n` places past the cursor, if the buffer reaches that far.
    fn look_ahead_n_bytes(&self, n: usize) -> (r: Option<u8>)
        requires
            spec_wf(self@),
        ensures
            r == (if self@.cursor + n < self@.src.len() {
                Some(self@.src[self@.cursor + n])
            } else {
                Option::<u8>::None
            }),
    {
        if n < self.src_data.len() - self.cursor {
            Some(self.src_data[self.cursor + n])
        } else {
            None
        }
    }

    /// A copy of the source bytes in `[start, end)`.
    fn copy_range(&self, start: usize, end: usize) -> (v: Vec<u8>)
        requires
            start <= end <= self@.src.len(),
        ensures
            v@ == self@.src.subrange(start as int, end as int),
    {
        let mut v: Vec<u8> = Vec::new();
        let mut i: usize = start;
        while i < end
            invariant
                start <= i <= end <= self@.src.len(),
                v@ == self@.src.subrange(start as int, i as int),
            decreases end - i,
        {
            v.push(self.src_data[i]);
            proof {
                assert(self@.src.subrange(start as int, i + 1 as int) =~= self@.src.subrange(
                    start as int,
                    i as int,
                ).push(self@.src[i as int]));
            }
            i = i + 1;
        }
        v
    }

    /// Move the cursor `n` bytes ahead within the current line: the
    /// column grows by the same `n`.
    fn forward(&mut self, n: usize)
        requires
            spec_wf(old(self)@),
            old(self)@.cursor + n <= old(self)@.src.len(),
        ensures
            spec_wf(final(self)@),
            final(self)@ == (SpecLexer {
                cursor: old(self)@.cursor + n,
                column: old(self)@.column + n,
                ..old(self)@
            }),
    {
        self.cursor = self.cursor + n;
        self.column = self.column + (n as u32);
    }

    /// The token whose lexeme is the next `content_length` bytes,
    /// starting at the current position.  Does not consume.
    fn gen_token(&self, kind: TokenKind, content_length: usize) -> (t: Token)
        requires
            self@.cursor + content_length <= self@.src.len(),
        ensures
            t@ == (SpecToken {
                line: self@.line,
                column: self@.column,
                content: self@.src.subrange(self@.cursor, self@.cursor + content_length),
                kind: kind@,
            }),
    {
        // the buffer's length is a usize, so cursor + content_length fits in one
        let _buf_len = self.src_data.len();
        Token {
            line: self.line,
            column: self.column,
            content: self.copy_range(self.cursor, self.cursor + content_length),
            kind,
        }
    }

    /// Consume the rest of a `//` comment: every byte up to, but not
    /// including, the next line terminator or end-of-input.
    fn skip_comment(&mut self)
        requires
            spec_wf(old(self)@),
            old(self)@.cursor + 1 < old(self)@.src.len(),
            old(self)@.src[old(self)@.cursor] == 47,
            old(self)@.src[old(self)@.cursor + 1] == 47,
        ensures
            spec_wf(final(self)@),
            final(self)@.src == old(self)@.src,
            final(self)@.ahead == old(self)@.ahead,
            final(self)@.cursor > old(self)@.cursor,
            skip_ws_from(final(self)@.src, cursor_of(final(self)@), false) == skip_ws_from(
                old(self)@.src,
                cursor_of(old(self)@),
                false,
            ),
    {
        proof {
            assert(skip_ws_from(old(self)@.src, cursor_of(old(self)@), false) == skip_ws_from(
                old(self)@.src,
                SpecCursor {
                    cursor: old(self)@.cursor + 2,
                    line: old(self)@.line,
                    column: old(self)@.column + 2,
                },
                true,
            ));
        }
        self.cursor = self.cursor + 2;
        self.column = self.column + 2;
        loop
            invariant
                spec_wf(self@),
                self@.src == old(self)@.src,
                self@.ahead == old(self)@.ahead,
                self@.line == old(self)@.line,
                self@.cursor > old(self)@.cursor,
                skip_ws_from(self@.src, cursor_of(self@), true) == skip_ws_from(
                    old(self)@.src,
                    cursor_of(old(self)@),
                    false,
                ),
            ensures
                self@.cursor >= self@.src.len() || is_line_term_byte(self@.src[self@.cursor]),
            decreases self@.src.len() - self@.cursor,
        {
            if self.cursor >= self.src_data.len() {
                break;
            }
            let b = self.src_data[self.cursor];
            if b == 10 || b == 13 {
                break;
            }
            self.cursor = self.cursor + 1;
            self.column = self.column + 1;
        }
        proof {
            assert(skip_ws_from(self@.src, cursor_of(self@), true) == skip_ws_from(
                self@.src,
                cursor_of(self@),
                false,
            ));
        }
    }

    /// Consume every space, tab, line terminator and `//` line comment in
    /// front of the cursor, keeping the line and column counts exact.
    fn skip_white_spaces(&mut self)
        requires
            spec_wf(old(self)@),
        ensures
            spec_wf(final(self)@),
            final(self)@.src == old(self)@.src,
            final(self)@.ahead == old(self)@.ahead,
            cursor_of(final(self)@) == skip_ws_from(old(self)@.src, cursor_of(old(self)@), false),
    {
        loop
            invariant
                spec_wf(self@),
                self@.src == old(self)@.src,
                self@.ahead == old(self)@.ahead,
                skip_ws_from(self@.src, cursor_of(self@), false) == skip_ws_from(
                    old(self)@.src,
                    cursor_of(old(self)@),
                    false,
                ),
            ensures
                self@.cursor >= self@.src.len() || ({
                    let b = self@.src[self@.cursor];
                    !is_blank_byte(b) && !is_line_term_byte(b) && !(b == 47 && self@.cursor + 1
                        < self@.src.len() && self@.src[self@.cursor + 1] == 47)
                }),
            decreases self@.src.len() - self@.cursor,
        {
            if self.cursor >= self.src_data.len() {
                break;
            }
            let b = self.src_data[self.cursor];
            if b == 32 || b == 9 {
                self.cursor = self.cursor + 1;
                self.column = self.column + 1;
            } else if b == 10 {
                self.cursor = self.cursor + 1;
                self.line = self.line + 1;
                self.column = 0;
            } else if b == 13 {
                if self.cursor + 1 < self.src_data.len() && self.src_data[self.cursor + 1] == 10 {
                    self.cursor = self.cursor + 2;
                } else {
                    self.cursor = self.cursor + 1;
                }
                self.line = self.line + 1;
                self.column = 0;
            } else if b == 47 && self.cursor + 1 < self.src_data.len() && self.src_data[self.cursor
                + 1] == 47 {
                self.skip_comment();
            } else {
                break;
            }
        }
    }

    /// Scan the maximal identifier run at the cursor and classify it
    /// against the keyword table.
    fn scan_identifier(&mut self) -> (r: Token)
        requires
            spec_wf(old(self)@),
            old(self)@.cursor < old(self)@.src.len(),
            is_ident_start_byte(old(self)@.src[old(self)@.cursor]),
        ensures
            spec_wf(final(self)@),
            final(self)@.src == old(self)@.src,
            final(self)@.ahead == old(self)@.ahead,
            scan_at(old(self)@.src, cursor_of(old(self)@)).0 == Result::<
                SpecToken,
                SpecLexError,
            >::Ok(r@),
            cursor_of(final(self)@) == scan_at(old(self)@.src, cursor_of(old(self)@)).1,
    {
        let ghost src = self@.src;
        let start = self.cursor;
        let len = self.src_data.len();
        let mut e = start + 1;
        loop
            invariant
                start + 1 <= e <= len,
                len == src.len(),
                src == self@.src,
                spec_wf(self@),
                self@ == old(self)@,
                start == self@.cursor,
                ident_end(src, start + 1) == ident_end(src, e as int),
            ensures
                start + 1 <= e <= len,
                self@ == old(self)@,
                ident_end(src, start + 1) == e,
            decreases len - e,
        {
            if e >= len {
                break;
            }
            let b = self.src_data[e];
            if !((65 <= b && b <= 90) || (97 <= b && b <= 122) || b == 95 || (48 <= b && b
                <= 57)) {
                break;
            }
            e = e + 1;
        }
        let run = self.copy_range(start, e);
        let content = self.copy_range(start, e);
        let kind = lookup_keyword(run);
        let t = Token { line: self.line, column: self.column, content, kind };
        self.forward(e - start);
        t
    }

    /// Scan the maximal digit run at the cursor and parse it as an
    /// unsigned 64-bit decimal integer; a run whose value does not fit
    /// is reported as an overflow and consumes nothing.
    fn scan_integer(&mut self) -> (r: Result<Token, LexError>)
        requires
            spec_wf(old(self)@),
            old(self)@.cursor < old(self)@.src.len(),
            is_digit_byte(old(self)@.src[old(self)@.cursor]),
        ensures
            spec_wf(final(self)@),
            final(self)@.src == old(self)@.src,
            final(self)@.ahead == old(self)@.ahead,
            lex_res_view(r) == scan_at(old(self)@.src, cursor_of(old(self)@)).0,
            cursor_of(final(self)@) == (match r {
                Ok(_) => scan_at(old(self)@.src, cursor_of(old(self)@)).1,
                Err(_) => cursor_of(old(self)@),
            }),
    {
        let ghost src = self@.src;
        let start = self.cursor;
        let len = self.src_data.len();
        let mut e = start;
        loop
            invariant
                start <= e <= len,
                len == src.len(),
                self@ == old(self)@,
                src == self@.src,
                spec_wf(self@),
                start == self@.cursor,
                digits_end(src, start as int) == digits_end(src, e as int),
                forall|t: int| start <= t < e ==> is_digit_byte(#[trigger] src[t]),
            ensures
                start <= e <= len,
                self@ == old(self)@,
                digits_end(src, start as int) == e,
                forall|t: int| start <= t < e ==> is_digit_byte(#[trigger] src[t]),
            decreases len - e,
        {
            if e >= len {
                break;
            }
            let b = self.src_data[e];
            if !(48 <= b && b <= 57) {
                break;
            }
            e = e + 1;
        }
        let run = self.copy_range(start, e);
        let ghost rs = src.subrange(start as int, e as int);
        proof {
            assert forall|i: int| 0 <= i < rs.len() implies is_digit_byte(#[trigger] rs[i]) by {
                assert(rs[i] == src[start + i]);
            }
        }
        let mut val: u64 = 0;
        let mut i: usize = 0;
        while i < run.len()
            invariant
                0 <= i <= run@.len(),
                run@ == rs,
                all_digits(rs),
                val == digits_val(rs.subrange(0, i as int)),
                spec_wf(self@),
                self@ == old(self)@,
                start == self@.cursor,
                src == self@.src,
                start <= e <= len,
                len == src.len(),
                is_digit_byte(src[start as int]),
                e == digits_end(src, start as int),
                rs == src.subrange(start as int, e as int),
            decreases run@.len() - i,
        {
            let d = run[i] - 48;
            proof {
                assert(rs.subrange(0, i + 1 as int).drop_last() =~= rs.subrange(0, i as int));
                assert(rs.subrange(0, i + 1 as int).last() == rs[i as int]);
            }
            let next_val = match val.checked_mul(10) {
                Some(v10) => match v10.checked_add(d as u64) {
                    Some(nv) => nv,
                    None => {
                        proof {
                            lemma_digits_val_prefix_le(rs, i + 1);
                        }
                        return Err(
                            LexError::IntegerOverflow {
                                line: self.line,
                                column: self.column,
                                text: run,
                            },
                        );
                    },
                },
                None => {
                    proof {
                        lemma_digits_val_nonneg(rs.subrange(0, i + 1 as int));
                        lemma_digits_val_prefix_le(rs, i + 1);
                    }
                    return Err(
                        LexError::IntegerOverflow {
                            line: self.line,
                            column: self.column,
                            text: run,
                        },
                    );
                },
            };
            val = next_val;
            i = i + 1;
        }
        proof {
            assert(rs.subrange(0, rs.len() as int) =~= rs);
        }
        let t = Token {
            line: self.line,
            column: self.column,
            content: run,
            kind: TokenKind::IntegerLiteral(val),
        };
        self.forward(e - start);
        Ok(t)
    }

    /// Scan a string literal: the opening delimiter is at the cursor,
    /// and the token runs to the matching delimiter.  Reaching
    /// end-of-input first is an unterminated-string error that consumes
    /// nothing, pointing at the opening delimiter.
    fn scan_string_literal(&mut self) -> (r: Result<Token, LexError>)
        requires
            spec_wf(old(self)@),
            old(self)@.cursor < old(self)@.src.len(),
            is_quote_byte(old(self)@.src[old(self)@.cursor]),
        ensures
            spec_wf(final(self)@),
            final(self)@.src == old(self)@.src,
            final(self)@.ahead == old(self)@.ahead,
            lex_res_view(r) == scan_at(old(self)@.src, cursor_of(old(self)@)).0,
            cursor_of(final(self)@) == (match r {
                Ok(_) => scan_at(old(self)@.src, cursor_of(old(self)@)).1,
                Err(_) => cursor_of(old(self)@),
            }),
    {
        let ghost src = self@.src;
        let start = self.cursor;
        let len = self.src_data.len();
        let d = self.src_data[start];
        let mut k = start + 1;
        loop
            invariant
                start + 1 <= k <= len,
                len == src.len(),
                self@ == old(self)@,
                src == self@.src,
                spec_wf(self@),
                start == self@.cursor,
                d == src[start as int],
                find_delim(src, start + 1, d) == find_delim(src, k as int, d),
            ensures
                start + 1 <= k <= len,
                self@ == old(self)@,
                find_delim(src, start + 1, d) == find_delim(src, k as int, d),
                k < len ==> src[k as int] == d,
                k >= len ==> k == len,
            decreases len - k,
        {
            if k >= len {
                break;
            }
            if self.src_data[k] == d {
                break;
            }
            k = k + 1;
        }
        if k >= len {
            Err(LexError::UnterminatedString { line: self.line, column: self.column })
        } else {
            let payload = self.copy_range(start + 1, k);
            let kind = TokenKind::StringLiteral(payload);
            let t = self.gen_token(kind, k + 1 - start);
            self.forward(k + 1 - start);
            Ok(t)
        }
    }

    /// Scan one token from the buffer: skip whitespace and comments,
    /// classify the next lexeme, and consume it (nothing is consumed
    /// past the skipped whitespace on an error).
    fn get_next_token(&mut self) -> (r: Result<Token, LexError>)
        requires
            spec_wf(old(self)@),
        ensures
            spec_wf(final(self)@),
            final(self)@.src == old(self)@.src,
            final(self)@.ahead == old(self)@.ahead,
            ({
                let (res, c2) = scan_result(old(self)@.src, cursor_of(old(self)@));
                lex_res_view(r) == res && cursor_of(final(self)@) == c2
            }),
    {
        self.skip_white_spaces();
        let ghost mid = cursor_of(self@);
        let b = match self.look_ahead_n_bytes(0) {
            None => {
                let t = self.gen_token(TokenKind::EndOfInput, 0);
                proof {
                    assert(self@.src.subrange(mid.cursor, mid.cursor) =~= Seq::<u8>::empty());
                }
                return Ok(t);
            },
            Some(b) => b,
        };
        match punct_token_kind(b) {
            Some(kind) => {
                let t = self.gen_token(kind, 1);
                proof {
                    assert(self@.src.subrange(mid.cursor, mid.cursor + 1) =~= seq![b]);
                }
                self.forward(1);
                return Ok(t);
            },
            None => {},
        }
        if b == 34 || b == 96 {
            return self.scan_string_literal();
        }
        if (65 <= b && b <= 90) || (97 <= b && b <= 122) || b == 95 {
            return Ok(self.scan_identifier());
        }
        if 48 <= b && b <= 57 {
            return self.scan_integer();
        }
        Err(LexError::UnexpectedCharacter { byte: b, line: self.line, column: self.column })
    }

    /// Hand out the next token: the cached lookahead token if one is
    /// present, else a fresh scan.  After an end of input, every further
    /// call keeps returning end of input.
    pub fn next_token(&mut self) -> (r: Result<Token, LexError>)
        requires
            spec_wf(old(self)@),
        ensures
            spec_wf(final(self)@),
            final(self)@.src == old(self)@.src,
            ({
                let (res, s2) = spec_next(old(self)@);
                lex_res_view(r) == res && final(self)@ == s2
            }),
    {
        let cached = self.ahead_token.take();
        match cached {
            Some(t) => Ok(t),
            None => self.get_next_token(),
        }
    }

    /// Peek at the next token without consuming it: repeated calls
    /// return the same token, and a following `next_token` drains it.
    pub fn look_ahead(&mut self) -> (r: Result<Token, LexError>)
        requires
            spec_wf(old(self)@),
        ensures
            spec_wf(final(self)@),
            final(self)@.src == old(self)@.src,
            ({
                let (res, s2) = spec_peek(old(self)@);
                lex_res_view(r) == res && final(self)@ == s2
            }),
    {
        match &self.ahead_token {
            Some(t) => {
                return Ok(t.duplicate());
            },
            None => {},
        }
        match self.get_next_token() {
            Ok(t) => {
                let copy = t.duplicate();
                self.ahead_token = Some(t);
                Ok(copy)
            },
            Err(e) => Err(e),
        }
    }
}

} // verus!

