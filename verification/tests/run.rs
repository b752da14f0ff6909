use just::error::{IoErrorKind, OutputError, RunError};
use just::justfile::{Justfile, Recipe};
use just::run::RunPlanError;

fn recipe(name: &str) -> Recipe {
  Recipe {
    name: name.to_string(),
    parameters: Vec::new(),
    private: false,
    groups: Vec::new(),
    import_offsets: Vec::new(),
    offset: 0,
  }
}

fn justfile(assignments: &[&str]) -> Justfile {
  Justfile {
    aliases: Vec::new(),
    assignments: assignments.iter().map(|a| a.to_string()).collect(),
    default: None,
    groups: Vec::new(),
    modules: Vec::new(),
    name: None,
    name_offset: 0,
    private: false,
    recipes: vec![recipe("build"), recipe("test")],
  }
}

fn strings(items: &[&str]) -> Vec<String> {
  items.iter().map(|s| s.to_string()).collect()
}

#[test]
fn unknown_overrides_come_sorted() {
  let j = justfile(&["foo", "bar"]);
  assert_eq!(
    j.unknown_overrides(&strings(&["baz", "foo", "alpha", "bar"])),
    strings(&["alpha", "baz"])
  );
  assert_eq!(justfile(&[]).unknown_overrides(&strings(&["foo", "baz"])), strings(&["baz", "foo"]));
  assert!(j.unknown_overrides(&strings(&["bar", "foo"])).is_empty());
}

#[test]
fn run_stops_on_unknown_overrides_first() {
  let j = justfile(&["foo"]);
  match j.plan_run(&strings(&["x"]), &["nope"], false) {
    Err(RunPlanError::UnknownOverrides { overrides }) => assert_eq!(overrides, strings(&["x"])),
    other => panic!("unexpected {other:?}"),
  }
}

#[test]
fn run_with_one_refuses_several_invocations() {
  let j = justfile(&["foo"]);
  match j.plan_run(&strings(&["foo"]), &["build", "test"], true) {
    Err(RunPlanError::ExcessInvocations { invocations }) => assert_eq!(invocations, 2),
    other => panic!("unexpected {other:?}"),
  }
  let plan = j.plan_run(&strings(&["foo"]), &["build", "test"], false).unwrap();
  let names: Vec<&str> = plan.iter().map(|i| i.recipe.name.as_str()).collect();
  assert_eq!(names, vec!["build", "test"]);
}

#[test]
fn run_reports_parse_errors() {
  let j = justfile(&[]);
  assert!(matches!(j.plan_run(&Vec::new(), &["nope"], false), Err(RunPlanError::Invocation(_))));
}

#[test]
fn argument_count_messages() {
  let exact = RunError::ArgumentCountMismatch { recipe: "foo".to_string(), parameters: Vec::new(), found: 2, min: 1, max: 1 };
  assert_eq!(exact.message(), "Recipe `foo` got 2 arguments but only takes 1");
  let few = RunError::ArgumentCountMismatch { recipe: "foo".to_string(), parameters: Vec::new(), found: 0, min: 1, max: 1 };
  assert_eq!(few.message(), "Recipe `foo` got 0 arguments but takes 1");
  let least = RunError::ArgumentCountMismatch { recipe: "foo".to_string(), parameters: Vec::new(), found: 1, min: 2, max: 3 };
  assert_eq!(least.message(), "Recipe `foo` got 1 argument but takes at least 2");
  let most = RunError::ArgumentCountMismatch { recipe: "foo".to_string(), parameters: Vec::new(), found: 4, min: 2, max: 3 };
  assert_eq!(most.message(), "Recipe `foo` got 4 arguments but takes at most 3");
}

#[test]
fn exit_code_messages_and_codes() {
  let code = RunError::Code { recipe: "build".to_string(), line_number: Some(3), code: -2, print_message: true };
  assert_eq!(code.message(), "Recipe \"build\" failed with exit code -2");
  assert_eq!(code.code(), Some(-2));
  assert!(code.print_message());
  let quiet = RunError::Code { recipe: "build".to_string(), line_number: None, code: 7, print_message: false };
  assert_eq!(quiet.message(), "Recipe \"build\" failed with exit code 7");
  assert!(!quiet.print_message());
  let signal = RunError::Signal { recipe: "build".to_string(), line_number: None, signal: 9 };
  assert_eq!(signal.message(), "Recipe `build` was terminated by signal 9");
  assert_eq!(signal.code(), Some(137));
  let huge = RunError::Signal { recipe: "build".to_string(), line_number: Some(1), signal: i32::MAX };
  assert_eq!(huge.code(), None);
  assert_eq!(RunError::Homedir.code(), None);
}

#[test]
fn command_and_misc_messages() {
  let invoke = RunError::CommandInvoke {
    binary: "ls".to_string(),
    arguments: strings(&["-l", "a b"]),
    io_error: "not found".to_string(),
  };
  assert_eq!(invoke.message(), "Failed to invoke `ls` `-l` `a b`: not found");
  let shebang = RunError::Shebang {
    argument: Some("-eu".to_string()),
    command: "/bin/sh".to_string(),
    io_error: "denied".to_string(),
    recipe: "x".to_string(),
  };
  assert_eq!(shebang.message(), "Recipe `x` with shebang `#!/bin/sh -eu` execution error: denied");
  assert_eq!(
    RunError::ExcessInvocations { invocations: 3 }.message(),
    "Expected 1 command-line recipe invocation but found 3."
  );
  assert_eq!(
    RunError::DefaultRecipeRequiresArguments { recipe: "a".to_string(), min_arguments: 1 }.message(),
    "Recipe `a` cannot be used as default recipe since it requires at least 1 argument."
  );
  assert_eq!(
    RunError::Internal { message: "oops".to_string() }.message(),
    "Internal runtime error, this may indicate a bug in just: oops consider filing an issue: https://github.com/casey/just/issues/new"
  );
  assert_eq!(RunError::NoRecipes.message(), "Justfile contains no recipes.");
}

#[test]
fn lookups_do_not_depend_on_order() {
  let a = justfile(&[]);
  let mut b = justfile(&[]);
  b.recipes.reverse();
  for name in ["build", "test"] {
    assert_eq!(a.get_recipe(name).unwrap().name, name);
    assert_eq!(b.get_recipe(name).unwrap().name, name);
  }
  assert!(a.get_recipe("nope").is_none() && b.get_recipe("nope").is_none());
}

#[test]
fn io_and_file_messages() {
  let io = |kind| RunError::Io { recipe: "r".to_string(), kind, io_error: "boom".to_string() };
  assert_eq!(
    io(IoErrorKind::NotFound).message(),
    "Recipe `r` could not be run because just could not find the shell: boom"
  );
  assert_eq!(
    io(IoErrorKind::PermissionDenied).message(),
    "Recipe `r` could not be run because just could not run the shell: boom"
  );
  assert_eq!(
    io(IoErrorKind::Other).message(),
    "Recipe `r` could not be run because of an IO error while launching the shell: boom"
  );
  assert_eq!(
    RunError::CircularImport { current: "a".to_string(), import: "b".to_string() }.message(),
    "Import `b` in `a` is circular"
  );
  assert_eq!(
    RunError::ChooserInvoke {
      shell_binary: "sh".to_string(),
      shell_arguments: "-cu".to_string(),
      chooser: "fzf".to_string(),
      io_error: "gone".to_string(),
    }
    .message(),
    "Chooser `sh -cu fzf` invocation failed: gone"
  );
  assert_eq!(
    RunError::InitExists { justfile: "/x/justfile".to_string() }.message(),
    "Justfile `/x/justfile` already exists"
  );
  assert_eq!(RunError::RegexCompile { source: "bad regex".to_string() }.message(), "bad regex");
}

#[test]
fn chooser_and_editor_failures_pass_their_codes_on() {
  let chooser = RunError::ChooserStatus { chooser: "fzf".to_string(), status: "exit status: 130".to_string(), status_code: Some(130) };
  assert_eq!(chooser.message(), "Chooser `fzf` failed: exit status: 130");
  assert_eq!(chooser.code(), Some(130));
  let editor = RunError::EditorStatus { editor: "vim".to_string(), status: "signal: 9".to_string(), status_code: None };
  assert_eq!(editor.message(), "Editor `vim` failed: signal: 9");
  assert_eq!(editor.code(), None);
}

#[test]
fn failed_recipe_reports_like_the_status_test() {
  let e = RunError::Code { recipe: "recipe".to_string(), line_number: Some(3), code: 100, print_message: true };
  assert_eq!(e.report(), "Recipe \"recipe\" failed with exit code 100");
  assert_eq!(e.code(), Some(100));
}

#[test]
fn argument_count_reports_with_usage() {
  let e = |found, min, max| RunError::ArgumentCountMismatch {
    recipe: "foo".to_string(),
    parameters: Vec::new(),
    found,
    min,
    max,
  };
  assert_eq!(e(3, 2, 2).report(), "error: Recipe `foo` got 3 arguments but only takes 2\nusage:\n    just foo");
  assert_eq!(e(0, 1, 2).report(), "error: Recipe `foo` got 0 arguments but takes at least 1\nusage:\n    just foo");
  assert_eq!(e(3, 1, 2).report(), "error: Recipe `foo` got 3 arguments but takes at most 2\nusage:\n    just foo");
  let with_parameters = RunError::ArgumentCountMismatch {
    recipe: "foo".to_string(),
    parameters: vec!["a".to_string(), "+b".to_string()],
    found: 0,
    min: 2,
    max: usize::MAX,
  };
  assert_eq!(
    with_parameters.report(),
    "error: Recipe `foo` got 0 arguments but takes at least 2\nusage:\n    just foo a +b"
  );
  assert_eq!(RunError::NoRecipes.report(), "error: Justfile contains no recipes.");
}

#[test]
fn backtick_and_interrupt_codes() {
  let backtick = |output_error| RunError::Backtick { output_error };
  assert_eq!(backtick(OutputError::Code(100)).code(), Some(100));
  assert_eq!(backtick(OutputError::Code(100)).report(), "backtick failed with exit code 100");
  assert_eq!(backtick(OutputError::Signal(15)).code(), Some(143));
  assert_eq!(backtick(OutputError::Signal(15)).message(), "Backtick was terminated by signal 15");
  let interrupted = OutputError::Interrupted { signal: "SIGINT".to_string(), signal_code: 130 };
  assert_eq!(backtick(interrupted.clone()).code(), Some(130));
  assert_eq!(
    backtick(interrupted).report(),
    "error: Backtick succeeded but `just` was interrupted by signal SIGINT"
  );
  assert_eq!(backtick(OutputError::Unknown).code(), None);
  let i = RunError::Interrupted { signal: "SIGTERM".to_string(), signal_code: 143 };
  assert_eq!(i.code(), Some(143));
  assert_eq!(i.message(), "Interrupted by SIGTERM");
  assert_eq!(
    RunError::Cygpath { recipe: "r".to_string(), output_error: OutputError::Code(2) }.message(),
    "Cygpath failed with exit code 2 while translating recipe `r` shebang interpreter path"
  );
  assert_eq!(
    RunError::UnknownRecipe { recipe: "x".to_string(), suggestion: Some("Did you mean `y`?".to_string()) }.message(),
    "Justfile does not contain recipe `x`\nDid you mean `y`?"
  );
}
