use idl_lexer::lexer::Lexer;
use idl_lexer::scan::LexError;
use idl_lexer::token::{Token, TokenKind};

fn lex(src: &[u8]) -> Lexer {
    Lexer::new(src.to_vec())
}

fn next_ok(lx: &mut Lexer) -> Token {
    lx.next_token().expect("scan failed")
}

#[test]
fn empty_input_is_end_of_input() {
    let mut lx = lex(b"");
    let t = next_ok(&mut lx);
    assert_eq!(t.kind, TokenKind::EndOfInput);
    assert_eq!(t.line, 1);
    assert_eq!(t.column, 0);
}

#[test]
fn whitespace_and_comments_only_yield_end_of_input() {
    let mut lx = lex(b"  \t // a comment\n\t // another");
    let t = next_ok(&mut lx);
    assert_eq!(t.kind, TokenKind::EndOfInput);

    let mut lx2 = lex(b"// just a comment");
    assert_eq!(next_ok(&mut lx2).kind, TokenKind::EndOfInput);

    let mut lx3 = lex(b" \r\n \n\t ");
    assert_eq!(next_ok(&mut lx3).kind, TokenKind::EndOfInput);
}

#[test]
fn repeated_peeks_return_identical_token_and_advance_once() {
    let mut lx = lex(b"message foo");
    assert_eq!(lx.cursor, 0);
    let p1 = lx.look_ahead().unwrap();
    let cursor_after_first = lx.cursor;
    assert_eq!(cursor_after_first, 7); // exactly the bytes of `message`
    let p2 = lx.look_ahead().unwrap();
    let p3 = lx.look_ahead().unwrap();
    assert_eq!(lx.cursor, cursor_after_first);
    assert_eq!(p1, p2);
    assert_eq!(p2, p3);
    assert_eq!(p1.kind, TokenKind::KwMessage);
    // draining returns the very same token without moving the buffer
    let n = next_ok(&mut lx);
    assert_eq!(n, p1);
    assert_eq!(lx.cursor, cursor_after_first);
    // and the next token is scanned afresh
    let f = next_ok(&mut lx);
    assert_eq!(f.kind, TokenKind::Identifier(b"foo".to_vec()));
}

#[test]
fn token_text_is_exact_source_slice() {
    let src = b"message { x = 42 ; }";
    let mut lx = lex(src);
    let expected: [&[u8]; 7] = [b"message", b"{", b"x", b"=", b"42", b";", b"}"];
    for want in expected.iter() {
        let t = next_ok(&mut lx);
        assert_eq!(&t.content[..], *want);
    }
    assert_eq!(next_ok(&mut lx).kind, TokenKind::EndOfInput);
}

#[test]
fn keyword_precedence_over_identifier() {
    let mut lx = lex(b"message");
    let t = next_ok(&mut lx);
    assert_eq!(t.kind, TokenKind::KwMessage);

    let mut lx2 = lex(b"messages");
    let t2 = next_ok(&mut lx2);
    assert_eq!(t2.kind, TokenKind::Identifier(b"messages".to_vec()));
    assert_eq!(&t2.content[..], b"messages");
}

#[test]
fn all_keywords_are_recognized() {
    let cases: [(&[u8], TokenKind); 10] = [
        (b"as", TokenKind::KwAs),
        (b"MAP", TokenKind::KwMap),
        (b"enum", TokenKind::KwEnum),
        (b"void", TokenKind::KwVoid),
        (b"Array", TokenKind::KwArray),
        (b"import", TokenKind::KwImport),
        (b"service", TokenKind::KwService),
        (b"message", TokenKind::KwMessage),
        (b"optional", TokenKind::KwOptional),
        (b"required", TokenKind::KwRequired),
    ];
    for (src, want) in cases.iter() {
        let mut lx = lex(src);
        let t = next_ok(&mut lx);
        assert_eq!(&t.kind, want);
        assert_eq!(&t.content[..], *src);
    }
}

#[test]
fn keywords_are_case_sensitive() {
    let mut lx = lex(b"map");
    assert_eq!(next_ok(&mut lx).kind, TokenKind::Identifier(b"map".to_vec()));
    let mut lx2 = lex(b"Message");
    assert_eq!(
        next_ok(&mut lx2).kind,
        TokenKind::Identifier(b"Message".to_vec())
    );
}

#[test]
fn all_punctuation_kinds() {
    let mut lx = lex(b"{}(),;=<>");
    let want = [
        TokenKind::LBrace,
        TokenKind::RBrace,
        TokenKind::LParen,
        TokenKind::RParen,
        TokenKind::Comma,
        TokenKind::Semicolon,
        TokenKind::Equals,
        TokenKind::LAngle,
        TokenKind::RAngle,
    ];
    for w in want.iter() {
        assert_eq!(&next_ok(&mut lx).kind, w);
    }
    assert_eq!(next_ok(&mut lx).kind, TokenKind::EndOfInput);
}

#[test]
fn line_and_column_tracking() {
    let mut lx = lex(b"a\nb");
    let a = next_ok(&mut lx);
    assert_eq!((a.line, a.column), (1, 0));
    let b = next_ok(&mut lx);
    assert_eq!((b.line, b.column), (2, 0));
}

#[test]
fn crlf_and_lf_advance_line_identically() {
    let mut lx = lex(b"a\r\nb");
    let _ = next_ok(&mut lx);
    let b1 = next_ok(&mut lx);

    let mut lx2 = lex(b"a\nb");
    let _ = next_ok(&mut lx2);
    let b2 = next_ok(&mut lx2);

    assert_eq!((b1.line, b1.column), (2, 0));
    assert_eq!((b1.line, b1.column), (b2.line, b2.column));
}

#[test]
fn bare_carriage_return_is_a_line_terminator() {
    let mut lx = lex(b"a\rb");
    let _ = next_ok(&mut lx);
    let b = next_ok(&mut lx);
    assert_eq!((b.line, b.column), (2, 0));
}

#[test]
fn comments_contribute_no_tokens() {
    let mut lx = lex(b"foo // bar\nbaz");
    let t1 = next_ok(&mut lx);
    assert_eq!(t1.kind, TokenKind::Identifier(b"foo".to_vec()));
    let t2 = next_ok(&mut lx);
    assert_eq!(t2.kind, TokenKind::Identifier(b"baz".to_vec()));
    assert_eq!((t2.line, t2.column), (2, 0));
    assert_eq!(next_ok(&mut lx).kind, TokenKind::EndOfInput);
}

#[test]
fn integer_scanning_parses_decimal_value() {
    let mut lx = lex(b"12345");
    let t = next_ok(&mut lx);
    assert_eq!(t.kind, TokenKind::IntegerLiteral(12345));
    assert_eq!(&t.content[..], b"12345");

    // the largest representable value still fits
    let mut lx2 = lex(b"18446744073709551615");
    assert_eq!(
        next_ok(&mut lx2).kind,
        TokenKind::IntegerLiteral(u64::MAX)
    );
}

#[test]
fn integer_overflow_is_reported() {
    // 2^64 does not fit in an unsigned 64-bit value
    let mut lx = lex(b"18446744073709551616");
    match lx.next_token() {
        Err(LexError::IntegerOverflow { line, column, text }) => {
            assert_eq!((line, column), (1, 0));
            assert_eq!(&text[..], b"18446744073709551616");
        }
        other => panic!("expected an overflow error, got {:?}", other),
    }
    // nothing was consumed, so the error repeats
    assert!(matches!(
        lx.next_token(),
        Err(LexError::IntegerOverflow { .. })
    ));
}

#[test]
fn string_scanning_strips_delimiters() {
    let mut lx = lex(b"\"abc\"");
    let t = next_ok(&mut lx);
    assert_eq!(t.kind, TokenKind::StringLiteral(b"abc".to_vec()));
    assert_eq!(&t.content[..], b"\"abc\"");
    assert_eq!(next_ok(&mut lx).kind, TokenKind::EndOfInput);

    let mut lx2 = lex(b"`abc`");
    let t2 = next_ok(&mut lx2);
    assert_eq!(t2.kind, TokenKind::StringLiteral(b"abc".to_vec()));

    let mut lx3 = lex(b"\"\"");
    assert_eq!(
        next_ok(&mut lx3).kind,
        TokenKind::StringLiteral(b"".to_vec())
    );
}

#[test]
fn unterminated_string_is_reported_at_opening_quote() {
    let mut lx = lex(b"\"abc");
    match lx.next_token() {
        Err(LexError::UnterminatedString { line, column }) => {
            assert_eq!((line, column), (1, 0));
        }
        other => panic!("expected an unterminated string error, got {:?}", other),
    }
}

#[test]
fn mismatched_delimiters_do_not_close_a_string() {
    // a backtick string is only closed by a backtick
    let mut lx = lex(b"`abc\"");
    assert!(matches!(
        lx.next_token(),
        Err(LexError::UnterminatedString { .. })
    ));
}

#[test]
fn unexpected_character_is_reported_precisely() {
    let mut lx = lex(b"$");
    match lx.next_token() {
        Err(LexError::UnexpectedCharacter { byte, line, column }) => {
            assert_eq!(byte, b'$');
            assert_eq!((line, column), (1, 0));
        }
        other => panic!("expected an unexpected-character error, got {:?}", other),
    }
    // the cursor stays on the offending byte, so the report stays accurate
    assert_eq!(lx.cursor, 0);
    assert!(matches!(
        lx.next_token(),
        Err(LexError::UnexpectedCharacter { byte: b'$', .. })
    ));
}

#[test]
fn unexpected_character_after_whitespace_has_its_own_column() {
    let mut lx = lex(b"  $");
    match lx.next_token() {
        Err(LexError::UnexpectedCharacter { byte, line, column }) => {
            assert_eq!(byte, b'$');
            assert_eq!((line, column), (1, 2));
        }
        other => panic!("expected an unexpected-character error, got {:?}", other),
    }
}

#[test]
fn lone_slash_is_not_a_comment() {
    let mut lx = lex(b"/x");
    assert!(matches!(
        lx.next_token(),
        Err(LexError::UnexpectedCharacter { byte: b'/', .. })
    ));
    let mut lx2 = lex(b"/");
    assert!(matches!(
        lx2.next_token(),
        Err(LexError::UnexpectedCharacter { byte: b'/', .. })
    ));
}

#[test]
fn identifiers_may_contain_digits_after_the_first_byte() {
    let mut lx = lex(b"field1 _x2y");
    assert_eq!(
        next_ok(&mut lx).kind,
        TokenKind::Identifier(b"field1".to_vec())
    );
    assert_eq!(
        next_ok(&mut lx).kind,
        TokenKind::Identifier(b"_x2y".to_vec())
    );
}

#[test]
fn identifiers_do_not_start_with_a_digit() {
    let mut lx = lex(b"1abc");
    assert_eq!(next_ok(&mut lx).kind, TokenKind::IntegerLiteral(1));
    assert_eq!(
        next_ok(&mut lx).kind,
        TokenKind::Identifier(b"abc".to_vec())
    );
}

#[test]
fn end_of_input_recurs_forever() {
    let mut lx = lex(b"x");
    assert_eq!(
        next_ok(&mut lx).kind,
        TokenKind::Identifier(b"x".to_vec())
    );
    assert_eq!(next_ok(&mut lx).kind, TokenKind::EndOfInput);
    assert_eq!(next_ok(&mut lx).kind, TokenKind::EndOfInput);
    let p = lx.look_ahead().unwrap();
    assert_eq!(p.kind, TokenKind::EndOfInput);
}

#[test]
fn peek_error_is_not_cached() {
    let mut lx = lex(b"$");
    assert!(lx.look_ahead().is_err());
    assert!(lx.look_ahead().is_err());
    assert!(lx.next_token().is_err());
}

#[test]
fn generic_schema_snippet_scans_in_order() {
    let src = b"message Person {\r\n  required name = 1; // the key\r\n  optional MAP<id, value> tags;\r\n}";
    let mut lx = lex(src);
    let kinds = [
        TokenKind::KwMessage,
        TokenKind::Identifier(b"Person".to_vec()),
        TokenKind::LBrace,
        TokenKind::KwRequired,
        TokenKind::Identifier(b"name".to_vec()),
        TokenKind::Equals,
        TokenKind::IntegerLiteral(1),
        TokenKind::Semicolon,
        TokenKind::KwOptional,
        TokenKind::KwMap,
        TokenKind::LAngle,
        TokenKind::Identifier(b"id".to_vec()),
        TokenKind::Comma,
        TokenKind::Identifier(b"value".to_vec()),
        TokenKind::RAngle,
        TokenKind::Identifier(b"tags".to_vec()),
        TokenKind::Semicolon,
        TokenKind::RBrace,
        TokenKind::EndOfInput,
    ];
    for want in kinds.iter() {
        assert_eq!(&next_ok(&mut lx).kind, want);
    }
}

#[test]
fn consecutive_line_terminators_each_count() {
    let mut lx = lex(b"a\n\n\nb");
    let _ = next_ok(&mut lx);
    let b = next_ok(&mut lx);
    assert_eq!((b.line, b.column), (4, 0));
}

#[test]
fn comment_lines_still_advance_the_line_count() {
    let mut lx = lex(b"// a\n// b\nc");
    let c = next_ok(&mut lx);
    assert_eq!(c.kind, TokenKind::Identifier(b"c".to_vec()));
    assert_eq!((c.line, c.column), (3, 0));
}

#[test]
fn string_payload_keeps_inner_bytes_raw() {
    let mut lx = lex(b"\"a b{;//\"");
    let t = next_ok(&mut lx);
    assert_eq!(t.kind, TokenKind::StringLiteral(b"a b{;//".to_vec()));
    assert_eq!(&t.content[..], b"\"a b{;//\"");
}

#[test]
fn tokens_on_one_line_have_increasing_columns() {
    let mut lx = lex(b"enum Color { RED }");
    let t1 = next_ok(&mut lx);
    let t2 = next_ok(&mut lx);
    let t3 = next_ok(&mut lx);
    let t4 = next_ok(&mut lx);
    assert_eq!((t1.line, t1.column), (1, 0)); // enum
    assert_eq!((t2.line, t2.column), (1, 5)); // Color
    assert_eq!((t3.line, t3.column), (1, 11)); // {
    assert_eq!((t4.line, t4.column), (1, 13)); // RED
}
