use just::compilation::CompileErrorKind;
use just::conditional_operator::ConditionalOperator;
use just::cooked_string::CookedString;
use just::delimiter::Delimiter;
use just::element::Element;
use just::indentation::Indentation;
use just::justfile::Justfile;
use just::string_literal::StringLiteral;
use just::interrupt_handler::{HandlerAction, InterruptHandler, EXIT_FAILURE, INTERRUPT_EXIT_CODE};
use just::string_kind::{StringDelimiter, StringKind};
use just::token::{Token, TokenKind};

fn string_token() -> Token {
  Token { offset: 0, length: 0, line: 0, column: 0, kind: TokenKind::StringToken }
}

#[test]
fn cooked_strings() {
  let token = string_token();
  let cooked = CookedString::new(&token, "\"a\\tb\\n\\\\\\\"\"").unwrap();
  assert_eq!(cooked.raw, "a\\tb\\n\\\\\\\"");
  assert_eq!(cooked.cooked, "a\tb\n\\\"");

  let cooked = CookedString::new(&token, "'a\\tb'").unwrap();
  assert_eq!(cooked.raw, "a\\tb");
  assert_eq!(cooked.cooked, "a\\tb");

  let error = CookedString::new(&token, "\"a\\qb\"").unwrap_err();
  assert_eq!(error.kind, CompileErrorKind::InvalidEscapeSequence { character: 'q' });

  let backtick = Token { kind: TokenKind::Backtick, ..token };
  let error = CookedString::new(&backtick, "`ls`").unwrap_err();
  assert!(matches!(error.kind, CompileErrorKind::Internal { .. }));

  let cooked = CookedString::new(&token, "\"\"").unwrap();
  assert_eq!(cooked.cooked, "");
}

#[test]
fn indentation() {
  assert_eq!(Indentation::default().to_string(), "    ");
  assert_eq!(Indentation::from_str("\t\t"), Ok(Indentation { character: '\t', count: 2 }));
  assert_eq!(Indentation::from_str(""), Err("indentation must not be empty"));
  assert_eq!(Indentation::from_str("x"), Err("indentation must be spaces or tabs"));
  assert_eq!(Indentation::from_str(" \t"), Err("indentation may not be mixed"));
  let three = Indentation { character: ' ', count: 3 };
  assert_eq!(Indentation::from_str(&three.to_string()), Ok(three));
}

#[test]
fn elements() {
  assert_eq!(Element("a\"b\n").color_display("<", "[", ">"), "<\"a[\\\"<b[\\n<\">");
  assert_eq!(Element("plain").color_display("", "", ""), "\"plain\"");
  assert_eq!(Element("\\x").color_display("S", "E", "!"), "S\"E\\\\Sx\"!");
}

#[test]
fn interrupts() {
  let mut handler = InterruptHandler::new(true);
  handler.block();
  assert_eq!(handler.interrupt(), HandlerAction::Continue);
  assert_eq!(handler.unblock(), HandlerAction::Exit(INTERRUPT_EXIT_CODE));

  let mut handler = InterruptHandler::new(false);
  assert_eq!(handler.unblock(), HandlerAction::Exit(EXIT_FAILURE));
  let mut handler = InterruptHandler::new(true);
  assert_eq!(handler.unblock(), HandlerAction::ReportUnblockError);
  handler.block();
  handler.block();
  assert_eq!(handler.unblock(), HandlerAction::Continue);
  assert_eq!(handler.blocks, 1);
  assert_eq!(handler.interrupt(), HandlerAction::Continue);

  let mut handler = InterruptHandler::new(false);
  assert_eq!(handler.interrupt(), HandlerAction::Exit(INTERRUPT_EXIT_CODE));
}

#[test]
fn delimiters_and_operators() {
  assert_eq!(Delimiter::Brace.open(), "{");
  assert_eq!(Delimiter::Paren.close(), ")");
  let kind = StringKind { delimiter: StringDelimiter::QuoteDouble, indented: false };
  assert_eq!(Delimiter::FormatString(kind).open(), "{{");
  assert_eq!(Delimiter::FormatString(kind).close(), "}}");
  assert_eq!(Delimiter::Bracket.close(), "]");
  assert_eq!(ConditionalOperator::RegexMismatch.to_str(), "!~");
  assert_eq!(ConditionalOperator::Equality.to_str(), "==");
}

#[test]
fn string_kinds() {
  let text: Vec<char> = "x'''y".chars().collect();
  let kind = StringKind::from_token_start(&text, 1).unwrap();
  assert_eq!(kind, StringKind { delimiter: StringDelimiter::QuoteSingle, indented: true });
  assert_eq!(kind.delimiter_len(), 3);
  assert_eq!(kind.token_kind(), TokenKind::StringToken);
  assert!(!kind.processes_escape_sequences());
  let text: Vec<char> = "`a".chars().collect();
  let kind = StringKind::from_token_start(&text, 0).unwrap();
  assert_eq!(kind.token_kind(), TokenKind::Backtick);
  assert_eq!(kind.unterminated_error_kind(), CompileErrorKind::UnterminatedBacktick);
  assert_eq!(StringKind::from_token_start(&text, 1), None);
}

#[test]
fn command_lines_in_messages() {
  assert_eq!(
    just::error::format_cmd("ls", &vec!["-l".to_string(), "a b".to_string()]),
    "`ls` `-l` `a b`"
  );
  assert_eq!(just::error::format_cmd("sh", &vec![]), "`sh`");
}

#[test]
fn module_groups_are_their_cooked_names() {
  let justfile = Justfile {
    aliases: Vec::new(),
    assignments: Vec::new(),
    default: None,
    groups: vec![StringLiteral::from_raw("build"), StringLiteral::from_raw("test")],
    modules: Vec::new(),
    name: None,
    name_offset: 0,
    private: false,
    recipes: Vec::new(),
  };
  assert_eq!(justfile.groups(), vec!["build".to_string(), "test".to_string()]);
}
