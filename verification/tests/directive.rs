use just::directive::{Directive, EvaluatedLine};

fn line(text: &str, continuation: bool) -> EvaluatedLine {
  EvaluatedLine { text: text.to_string(), continuation }
}

#[test]
fn continued_lines_join_into_one_command() {
  let lines = vec![line("echo a \\", true), line("  b", false), line("echo c", false)];
  let mut parser = Directive::parser();
  let directive = parser.parse(&lines);
  assert_eq!(directive.evaluated, "echo a   b");
  assert_eq!(directive.continuations, vec![8]);
  assert!(!directive.is_quiet());
  assert_eq!(directive.to_string(), "echo a b");
  assert_eq!(parser.lines_consumed(), 2);
  let next = parser.parse(&lines[2..]);
  assert_eq!(next.evaluated, "echo c");
  assert!(next.continuations.is_empty());
  assert_eq!(next.to_string(), "echo c");
  assert_eq!(parser.lines_consumed(), 3);
}

#[test]
fn quiet_commands_lose_their_mark() {
  let mut parser = Directive::parser();
  let directive = parser.parse(&vec![line("@echo hi", false)]);
  assert!(directive.is_quiet());
  assert_eq!(directive.as_evaluated_str(), "echo hi");
  assert_eq!(directive.to_string(), "echo hi");
}

#[test]
fn a_body_that_ends_in_a_backslash_ends_the_command() {
  let mut parser = Directive::parser();
  let directive = parser.parse(&vec![line("a\\", true), line("b\\", true)]);
  assert_eq!(directive.evaluated, "ab");
  assert_eq!(directive.continuations, vec![2, 3]);
  assert_eq!(directive.to_string(), "a b ");
}
