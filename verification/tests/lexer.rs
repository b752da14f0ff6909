use just::compilation::CompileErrorKind;
use just::lexer::{lex, Lexer};
use just::token::{Token, TokenKind};

fn lexemes<'a>(src: &'a str, tokens: &[Token]) -> Vec<&'a str> {
  tokens.iter().map(|t| &src[t.offset..t.offset + t.length]).collect()
}

fn check(src: &str, want: &[(TokenKind, &str)]) {
  let tokens = lex(src).unwrap();
  let kinds: Vec<TokenKind> = tokens.iter().map(|t| t.kind).collect();
  let want_kinds: Vec<TokenKind> = want.iter().map(|w| w.0).collect();
  assert_eq!(kinds, want_kinds, "Token kind mismatch");
  let have = lexemes(src, &tokens);
  let want_lexemes: Vec<&str> = want.iter().map(|w| w.1).collect();
  assert_eq!(have, want_lexemes, "Token lexeme mismatch");
  check_positions(src, &tokens);
}

fn check_positions(src: &str, tokens: &[Token]) {
  let mut roundtrip = String::new();
  let mut offset = 0;
  let mut line = 0;
  let mut column = 0;
  for token in tokens {
    assert_eq!(token.offset, offset);
    assert_eq!(token.line, line);
    assert_eq!(token.column, column);
    let lexeme = &src[token.offset..token.offset + token.length];
    roundtrip.push_str(lexeme);
    for c in lexeme.chars() {
      if c == '\n' {
        line += 1;
        column = 0;
      } else {
        column += c.len_utf8();
      }
    }
    offset += token.length;
  }
  assert_eq!(roundtrip, src, "Roundtrip mismatch");
}

#[test]
fn name_new() {
  check("foo", &[(TokenKind::Identifier, "foo"), (TokenKind::Eof, "")]);
}

#[test]
fn assignment() {
  check(
    "foo := \"bar\"\n",
    &[
      (TokenKind::Identifier, "foo"),
      (TokenKind::Whitespace, " "),
      (TokenKind::ColonEquals, ":="),
      (TokenKind::Whitespace, " "),
      (TokenKind::StringToken, "\"bar\""),
      (TokenKind::Eol, "\n"),
      (TokenKind::Eof, ""),
    ],
  );
}

#[test]
fn recipe_with_body() {
  check(
    "foo:\n  echo {{x}}\n",
    &[
      (TokenKind::Identifier, "foo"),
      (TokenKind::Colon, ":"),
      (TokenKind::Eol, "\n"),
      (TokenKind::Indent, "  "),
      (TokenKind::Text, "echo "),
      (TokenKind::InterpolationStart, "{{"),
      (TokenKind::Identifier, "x"),
      (TokenKind::InterpolationEnd, "}}"),
      (TokenKind::Eol, "\n"),
      (TokenKind::Dedent, ""),
      (TokenKind::Eof, ""),
    ],
  );
}

#[test]
fn operators_and_delimiters() {
  check(
    "a == b != c =~ d !~ e && f || g ( ) [ ] { } , + / * @ ? $ :: = ",
    &[
      (TokenKind::Identifier, "a"), (TokenKind::Whitespace, " "), (TokenKind::EqualsEquals, "=="), (TokenKind::Whitespace, " "),
      (TokenKind::Identifier, "b"), (TokenKind::Whitespace, " "), (TokenKind::BangEquals, "!="), (TokenKind::Whitespace, " "),
      (TokenKind::Identifier, "c"), (TokenKind::Whitespace, " "), (TokenKind::EqualsTilde, "=~"), (TokenKind::Whitespace, " "),
      (TokenKind::Identifier, "d"), (TokenKind::Whitespace, " "), (TokenKind::BangTilde, "!~"), (TokenKind::Whitespace, " "),
      (TokenKind::Identifier, "e"), (TokenKind::Whitespace, " "), (TokenKind::AmpersandAmpersand, "&&"), (TokenKind::Whitespace, " "),
      (TokenKind::Identifier, "f"), (TokenKind::Whitespace, " "), (TokenKind::BarBar, "||"), (TokenKind::Whitespace, " "),
      (TokenKind::Identifier, "g"), (TokenKind::Whitespace, " "), (TokenKind::ParenL, "("), (TokenKind::Whitespace, " "), (TokenKind::ParenR, ")"),
      (TokenKind::Whitespace, " "), (TokenKind::BracketL, "["), (TokenKind::Whitespace, " "), (TokenKind::BracketR, "]"), (TokenKind::Whitespace, " "),
      (TokenKind::BraceL, "{"), (TokenKind::Whitespace, " "), (TokenKind::BraceR, "}"), (TokenKind::Whitespace, " "), (TokenKind::Comma, ","),
      (TokenKind::Whitespace, " "), (TokenKind::Plus, "+"), (TokenKind::Whitespace, " "), (TokenKind::Slash, "/"), (TokenKind::Whitespace, " "),
      (TokenKind::Asterisk, "*"), (TokenKind::Whitespace, " "), (TokenKind::At, "@"), (TokenKind::Whitespace, " "), (TokenKind::QuestionMark, "?"),
      (TokenKind::Whitespace, " "), (TokenKind::Dollar, "$"), (TokenKind::Whitespace, " "), (TokenKind::ColonColon, "::"),
      (TokenKind::Whitespace, " "), (TokenKind::Equals, "="), (TokenKind::Whitespace, " "), (TokenKind::Eof, ""),
    ],
  );
}

#[test]
fn strings_and_comments() {
  check(
    "x := 'a\\b' + `echo` # note\r\ny := \"\"\"q\"\"\"",
    &[
      (TokenKind::Identifier, "x"), (TokenKind::Whitespace, " "), (TokenKind::ColonEquals, ":="), (TokenKind::Whitespace, " "),
      (TokenKind::StringToken, "'a\\b'"), (TokenKind::Whitespace, " "), (TokenKind::Plus, "+"), (TokenKind::Whitespace, " "),
      (TokenKind::Backtick, "`echo`"), (TokenKind::Whitespace, " "), (TokenKind::Comment, "# note"), (TokenKind::Eol, "\r\n"),
      (TokenKind::Identifier, "y"), (TokenKind::Whitespace, " "), (TokenKind::ColonEquals, ":="), (TokenKind::Whitespace, " "),
      (TokenKind::StringToken, "\"\"\"q\"\"\""), (TokenKind::Eof, ""),
    ],
  );
}

#[test]
fn escaped_newline_and_open_delimiters() {
  check(
    "a := (b\n  + c) \\\n d",
    &[
      (TokenKind::Identifier, "a"), (TokenKind::Whitespace, " "), (TokenKind::ColonEquals, ":="), (TokenKind::Whitespace, " "),
      (TokenKind::ParenL, "("), (TokenKind::Identifier, "b"), (TokenKind::Whitespace, "\n"), (TokenKind::Whitespace, "  "), (TokenKind::Plus, "+"),
      (TokenKind::Whitespace, " "), (TokenKind::Identifier, "c"), (TokenKind::ParenR, ")"), (TokenKind::Whitespace, " "),
      (TokenKind::Whitespace, "\\\n "), (TokenKind::Identifier, "d"), (TokenKind::Eof, ""),
    ],
  );
}

#[test]
fn unicode_positions() {
  let src = "é := \"ü\"\n# ☃\nx";
  let tokens = lex(src);
  // `é` is no identifier start, so lexing stops there.
  assert!(tokens.is_err());
  let src = "x := \"ü☃\" # 😀\ny";
  let tokens = lex(src).unwrap();
  check_positions(src, &tokens);
  assert_eq!(tokens.last().unwrap().kind, TokenKind::Eof);
}

#[test]
fn byte_order_mark() {
  check("\u{feff}foo", &[(TokenKind::ByteOrderMark, "\u{feff}"), (TokenKind::Identifier, "foo"), (TokenKind::Eof, "")]);
}

#[test]
fn errors() {
  let error = lex("foo: \"bar").unwrap_err();
  assert_eq!(error.kind, CompileErrorKind::UnterminatedString);
  assert_eq!(error.token.offset, 5);
  assert_eq!(error.token.length, 1);

  let error = lex("a:\n  echo {{ b\n").unwrap_err();
  assert_eq!(error.kind, CompileErrorKind::UnterminatedInterpolation);

  let error = lex("a := (b]").unwrap_err();
  assert!(matches!(error.kind, CompileErrorKind::MismatchedClosingDelimiter { .. }));

  let error = lex("a := b)").unwrap_err();
  assert!(matches!(error.kind, CompileErrorKind::UnexpectedClosingDelimiter { .. }));

  let error = lex("!include foo").unwrap_err();
  assert_eq!(error.kind, CompileErrorKind::Include);

  let error = lex("a & b").unwrap_err();
  assert_eq!(error.kind, CompileErrorKind::UnexpectedCharacter { expected: vec!['&'] });

  let error = lex("a !").unwrap_err();
  assert_eq!(error.kind, CompileErrorKind::UnexpectedEndOfToken { expected: vec!['=', '~'] });

  let error = lex("%").unwrap_err();
  assert_eq!(error.kind, CompileErrorKind::UnknownStartOfToken { start: '%' });

  let error = lex("a\rb").unwrap_err();
  assert_eq!(error.kind, CompileErrorKind::UnpairedCarriageReturn);

  let error = lex("a \\x").unwrap_err();
  assert_eq!(error.kind, CompileErrorKind::InvalidEscapeSequence { character: 'x' });

  let error = lex("a:\n \tb").unwrap_err();
  assert!(matches!(error.kind, CompileErrorKind::MixedLeadingWhitespace { .. }));

  let error = lex("a:\n    b\n  c").unwrap_err();
  assert!(matches!(error.kind, CompileErrorKind::InconsistentLeadingWhitespace { .. }));
}

#[test]
fn identifiers() {
  assert!(Lexer::is_identifier("foo"));
  assert!(Lexer::is_identifier("_foo-bar9"));
  assert!(!Lexer::is_identifier(""));
  assert!(!Lexer::is_identifier("9a"));
  assert!(!Lexer::is_identifier("a.b"));
  assert!(Lexer::is_identifier_start('_'));
  assert!(!Lexer::is_identifier_start('-'));
  assert!(Lexer::is_identifier_continue('-'));
}

#[test]
fn presume_error() {
  let error = Lexer::new("!").unwrap().presume('-').unwrap_err();
  assert!(matches!(
    error.token,
    Token {
      offset: 0,
      line: 0,
      column: 0,
      length: 0,
      kind: TokenKind::Unspecified,
    }
  ));
  assert!(matches!(
    &error.kind,
    CompileErrorKind::Internal { message }
      if message == "Lexer presumed character `-`"
  ));
}

#[test]
fn presume_advances() {
  let mut lexer = Lexer::new("ab").unwrap();
  assert_eq!(lexer.presume('a'), Ok(()));
  assert_eq!(lexer.presume('b'), Ok(()));
  assert!(lexer.presume('b').is_err());
}

#[test]
fn trailing_backslash_ends_in_end_of_file_token() {
  let src = "a \\";
  let tokens = lex(src).unwrap();
  let kinds: Vec<TokenKind> = tokens.iter().map(|t| t.kind).collect();
  assert_eq!(kinds, vec![TokenKind::Identifier, TokenKind::Whitespace, TokenKind::Eof]);
  assert_eq!(lexemes(src, &tokens), vec!["a", " ", "\\"]);
  check_positions(src, &tokens);
}

#[test]
fn escaped_line_break_is_whitespace() {
  let src = "a \\\n  b";
  let tokens = lex(src).unwrap();
  let kinds: Vec<TokenKind> = tokens.iter().map(|t| t.kind).collect();
  assert_eq!(
    kinds,
    vec![
      TokenKind::Identifier,
      TokenKind::Whitespace,
      TokenKind::Whitespace,
      TokenKind::Identifier,
      TokenKind::Eof
    ]
  );
  assert_eq!(lexemes(src, &tokens), vec!["a", " ", "\\\n  ", "b", ""]);
}

#[test]
fn indents_and_dedents_balance() {
  for src in ["a:\n  b\n    c\nd:\n  e", "a:\n  b\n\n  c\n", "a:\n\tb"] {
    let tokens = lex(src).unwrap();
    let mut depth: i64 = 0;
    for token in &tokens {
      match token.kind {
        TokenKind::Indent => depth += 1,
        TokenKind::Dedent => depth -= 1,
        _ => {}
      }
      assert!(depth >= 0, "more dedents than indents in {src:?}");
    }
    assert_eq!(depth, 0, "unbalanced indentation in {src:?}");
    assert!(tokens.iter().all(|t| t.kind != TokenKind::Unspecified));
  }
}

#[test]
fn plain_text_always_lexes() {
  assert!(just::lexer::lex("build test\n\ndeploy $ * + , / ? @\nx\ty").is_ok());
  assert!(just::lexer::lex("").is_ok());
}

#[test]
fn closing_delimiter_must_match() {
  assert!(just::lexer::lex("(]").is_err());
  assert!(just::lexer::lex("a & b").is_err());
  assert!(just::lexer::lex("a && b").is_ok());
}

#[test]
fn mixed_leading_whitespace_is_reported_over_the_blanks() {
  let error = just::lexer::lex("a:\n\t echo hello").unwrap_err();
  assert_eq!(
    error.kind,
    just::compilation::CompileErrorKind::MixedLeadingWhitespace { whitespace: "\t ".to_string() }
  );
  assert_eq!((error.token.offset, error.token.line, error.token.column, error.token.length), (3, 1, 0, 2));
}

#[test]
fn inconsistent_leading_whitespace_is_reported_over_the_blanks() {
  let error = just::lexer::lex("a\n foo\n   bar\n  baz").unwrap_err();
  assert_eq!(
    error.kind,
    just::compilation::CompileErrorKind::InconsistentLeadingWhitespace {
      expected: "   ".to_string(),
      found: "  ".to_string(),
    }
  );
  assert_eq!((error.token.offset, error.token.line, error.token.column, error.token.length), (14, 3, 0, 2));
}

#[test]
fn plain_text_token_kinds() {
  let tokens = just::lexer::lex("ab c\nd+").unwrap();
  let kinds: Vec<TokenKind> = tokens.iter().map(|t| t.kind).collect();
  assert_eq!(
    kinds,
    vec![
      TokenKind::Identifier,
      TokenKind::Whitespace,
      TokenKind::Identifier,
      TokenKind::Eol,
      TokenKind::Identifier,
      TokenKind::Plus,
      TokenKind::Eof,
    ]
  );
}

#[test]
fn indented_text_token_kinds() {
  let kinds: Vec<TokenKind> = lex("a\n  b\nc").unwrap().iter().map(|t| t.kind).collect();
  assert_eq!(
    kinds,
    vec![
      TokenKind::Identifier,
      TokenKind::Eol,
      TokenKind::Indent,
      TokenKind::Identifier,
      TokenKind::Eol,
      TokenKind::Dedent,
      TokenKind::Identifier,
      TokenKind::Eof,
    ]
  );
  let kinds: Vec<TokenKind> = lex("a\n  b\n    c\n").unwrap().iter().map(|t| t.kind).collect();
  assert_eq!(
    kinds,
    vec![
      TokenKind::Identifier,
      TokenKind::Eol,
      TokenKind::Indent,
      TokenKind::Identifier,
      TokenKind::Eol,
      TokenKind::Indent,
      TokenKind::Identifier,
      TokenKind::Eol,
      TokenKind::Dedent,
      TokenKind::Dedent,
      TokenKind::Eof,
    ]
  );
  assert!(lex("a\n  b\n c").is_err());
}

fn kinds_of(src: &str) -> Vec<TokenKind> {
  lex(src).unwrap().iter().map(|t| t.kind).collect()
}

#[test]
fn recipe_text_token_kinds() {
  assert_eq!(
    kinds_of("build:\n    cargo build\n"),
    vec![
      TokenKind::Identifier,
      TokenKind::Colon,
      TokenKind::Eol,
      TokenKind::Indent,
      TokenKind::Text,
      TokenKind::Eol,
      TokenKind::Dedent,
      TokenKind::Eof,
    ]
  );
  assert_eq!(
    kinds_of("a:\n  x y\n\nb: a\n  z"),
    vec![
      TokenKind::Identifier,
      TokenKind::Colon,
      TokenKind::Eol,
      TokenKind::Indent,
      TokenKind::Text,
      TokenKind::Eol,
      TokenKind::Eol,
      TokenKind::Dedent,
      TokenKind::Identifier,
      TokenKind::Colon,
      TokenKind::Whitespace,
      TokenKind::Identifier,
      TokenKind::Eol,
      TokenKind::Indent,
      TokenKind::Text,
      TokenKind::Dedent,
      TokenKind::Eof,
    ]
  );
}

#[test]
fn comments_assignments_and_strings_lex() {
  assert_eq!(
    kinds_of("# build it\nx := 'a' + \"b\"\ny: x\n  echo hi\n"),
    vec![
      TokenKind::Comment,
      TokenKind::Eol,
      TokenKind::Identifier,
      TokenKind::Whitespace,
      TokenKind::ColonEquals,
      TokenKind::Whitespace,
      TokenKind::StringToken,
      TokenKind::Whitespace,
      TokenKind::Plus,
      TokenKind::Whitespace,
      TokenKind::StringToken,
      TokenKind::Eol,
      TokenKind::Identifier,
      TokenKind::Colon,
      TokenKind::Whitespace,
      TokenKind::Identifier,
      TokenKind::Eol,
      TokenKind::Indent,
      TokenKind::Text,
      TokenKind::Eol,
      TokenKind::Dedent,
      TokenKind::Eof,
    ]
  );
}

#[test]
fn end_of_file_token_is_empty() {
  for src in ["", "a", "a:\n  b\n", "# c"] {
    let tokens = lex(src).unwrap();
    let last = tokens.last().unwrap();
    assert_eq!(last.kind, TokenKind::Eof);
    assert_eq!(last.length, 0);
  }
}

#[test]
fn unknown_characters_fail() {
  assert!(lex("a ^ b").is_err());
  assert!(lex("&").is_err());
}

#[test]
fn interpolations_and_calls_lex() {
  check(
    "a:\n  echo {{x}}\n",
    &[
      (TokenKind::Identifier, "a"),
      (TokenKind::Colon, ":"),
      (TokenKind::Eol, "\n"),
      (TokenKind::Indent, "  "),
      (TokenKind::Text, "echo "),
      (TokenKind::InterpolationStart, "{{"),
      (TokenKind::Identifier, "x"),
      (TokenKind::InterpolationEnd, "}}"),
      (TokenKind::Eol, "\n"),
      (TokenKind::Dedent, ""),
      (TokenKind::Eof, ""),
    ],
  );
  check(
    "x := env(\"a\")",
    &[
      (TokenKind::Identifier, "x"),
      (TokenKind::Whitespace, " "),
      (TokenKind::ColonEquals, ":="),
      (TokenKind::Whitespace, " "),
      (TokenKind::Identifier, "env"),
      (TokenKind::ParenL, "("),
      (TokenKind::StringToken, "\"a\""),
      (TokenKind::ParenR, ")"),
      (TokenKind::Eof, ""),
    ],
  );
}

#[test]
fn unterminated_interpolation_fails() {
  assert!(lex("a:\n  echo {{x\n").is_err());
  assert!(lex("a:\n  echo {{x").is_err());
}
