use just::executor::{Executor, ExecutorError, RecipeLine};
use just::interpreter::Interpreter;
use just::shebang::Shebang;
use just::string_literal::StringLiteral;

fn case(interpreter: &str, recipe: &str, extension: Option<&str>, expected: &str) {
  assert_eq!(
    Executor::Shebang(Shebang::new(&format!("#!{interpreter}")).unwrap())
      .script_filename(recipe, extension),
    expected
  );
  assert_eq!(
    Executor::Command(&Interpreter {
      command: StringLiteral::from_raw(interpreter),
      arguments: Vec::new()
    })
    .script_filename(recipe, extension),
    expected
  );
}

#[test]
fn shebang_script_filename() {
  case("bar", "foo", Some(".sh"), "foo.sh");
  case("pwsh.exe", "foo", Some(".sh"), "foo.sh");
  case("cmd.exe", "foo", Some(".sh"), "foo.sh");
  case("powershell", "foo", None, "foo.ps1");
  case("pwsh", "foo", None, "foo.ps1");
  case("powershell.exe", "foo", None, "foo.ps1");
  case("pwsh.exe", "foo", None, "foo.ps1");
  case("cmd", "foo", None, "foo.bat");
  case("cmd.exe", "foo", None, "foo.bat");
  case("bar", "foo", None, "foo");
}

#[test]
fn shebang_lines() {
  let shebang = Shebang::new("#!/usr/bin/env python3 -u").unwrap();
  assert_eq!(shebang.interpreter, "/usr/bin/env");
  assert_eq!(shebang.argument, Some("python3 -u".to_string()));
  assert_eq!(shebang.interpreter_filename(), "env");

  let shebang = Shebang::new("#!  bash  \r\nrest").unwrap();
  assert_eq!(shebang.interpreter, "bash");
  assert_eq!(shebang.argument, None);

  let shebang = Shebang::new("#!C:\\tools\\cmd.exe").unwrap();
  assert_eq!(shebang.interpreter_filename(), "cmd.exe");
  assert!(!shebang.include_shebang_line(false));

  let shebang = Shebang::new("#!/bin/sh").unwrap();
  assert!(shebang.include_shebang_line(false));
  assert!(!shebang.include_shebang_line(true));

  assert_eq!(Shebang::new("#!"), None);
  assert_eq!(Shebang::new("#!   "), None);
  assert_eq!(Shebang::new("echo"), None);
  assert_eq!(Shebang::new("#"), None);
}

#[test]
fn script_keeps_line_numbers() {
  let interpreter = Interpreter { command: StringLiteral::from_raw("sh"), arguments: Vec::new() };
  let body = [
    RecipeLine { number: 1, shebang: false },
    RecipeLine { number: 3, shebang: false },
  ];
  let lines = ["echo a".to_string(), "echo b".to_string()];
  assert_eq!(
    Executor::Command(&interpreter).script(&body, &lines, false),
    "\necho a\n\necho b\n"
  );

  let shebang = Shebang::new("#!/usr/bin/env python3").unwrap();
  let body = [
    RecipeLine { number: 1, shebang: true },
    RecipeLine { number: 2, shebang: false },
    RecipeLine { number: 4, shebang: false },
  ];
  let lines = [
    "#!/usr/bin/env python3".to_string(),
    "print(1)".to_string(),
    "print(2)".to_string(),
  ];
  assert_eq!(
    Executor::Shebang(shebang).script(&body, &lines, false),
    "#!/usr/bin/env python3\n\nprint(1)\n\nprint(2)\n"
  );

  let shebang = Shebang::new("#!cmd").unwrap();
  assert_eq!(
    Executor::Shebang(shebang).script(&body, &lines, false),
    "\n\nprint(1)\n\nprint(2)\n"
  );
}

#[test]
fn interpreter_text() {
  let interpreter = Interpreter::default_script_interpreter();
  assert_eq!(interpreter.command, "sh");
  assert_eq!(interpreter.arguments, vec!["-eu".to_string()]);
  assert_eq!(interpreter.to_string(), "sh, -eu");
  let bare = Interpreter { command: "bash".to_string(), arguments: Vec::new() };
  assert_eq!(bare.to_string(), "bash");
}

#[test]
fn execution_errors() {
  let interpreter = Interpreter {
    command: StringLiteral::from_raw("bash"),
    arguments: vec![StringLiteral::from_raw("-eu"), StringLiteral::from_raw("-x")],
  };
  let io_error = std::io::Error::new(std::io::ErrorKind::NotFound, "gone");
  match Executor::Command(&interpreter).error(io_error, "build") {
    ExecutorError::Script { command, io_error, recipe } => {
      assert_eq!(command, "bash -eu -x");
      assert_eq!(io_error.kind(), std::io::ErrorKind::NotFound);
      assert_eq!(recipe, "build");
    }
    other => panic!("unexpected error: {other:?}"),
  }

  let shebang = Shebang::new("#!/usr/bin/env python3").unwrap();
  let io_error = std::io::Error::new(std::io::ErrorKind::PermissionDenied, "denied");
  match Executor::Shebang(shebang).error(io_error, "test") {
    ExecutorError::Shebang { argument, command, io_error, recipe } => {
      assert_eq!(argument, Some("python3".to_string()));
      assert_eq!(command, "/usr/bin/env");
      assert_eq!(io_error.kind(), std::io::ErrorKind::PermissionDenied);
      assert_eq!(recipe, "test");
    }
    other => panic!("unexpected error: {other:?}"),
  }
}
