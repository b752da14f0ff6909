use just::compilation::{CompileError, CompileErrorKind};
use just::token::{Token, TokenKind};
use just::expression::Expression;
use just::function_resolver::{Builtin, FunctionDefinition, FunctionResolver};
use just::reference::Reference;

fn tok(name: &str) -> Token {
  let offset = name.bytes().map(|b| b as usize).sum();
  Token { offset, length: name.len(), line: 1, column: 4, kind: TokenKind::Identifier }
}

fn variable(name: &str) -> Expression {
  Expression::Variable { name: name.to_string(), token: tok(name) }
}

fn call(name: &str, arguments: Vec<Expression>) -> Expression {
  Expression::Call { name: name.to_string(), token: tok(name), arguments }
}

fn err(name: &str, kind: CompileErrorKind) -> Result<(), CompileError> {
  Err(CompileError { token: tok(name), kind })
}

fn builtins() -> Vec<Builtin> {
  vec![
    Builtin { name: "env".to_string(), min: 1, max: 2 },
    Builtin { name: "uppercase".to_string(), min: 1, max: 1 },
  ]
}

fn function(name: &str, parameters: &[&str], body: Expression) -> FunctionDefinition {
  FunctionDefinition {
    body,
    name: name.to_string(),
    parameters: parameters.iter().map(|p| p.to_string()).collect(),
  }
}

#[test]
fn references_come_left_to_right_with_calls_after_their_arguments() {
  let expression = Expression::Concatenation {
    lhs: Box::new(call("f", vec![variable("a"), variable("b")])),
    rhs: Box::new(variable("c")),
  };
  assert_eq!(
    expression.references(),
    vec![
      Reference::Variable { name: "a".to_string(), token: tok("a") },
      Reference::Variable { name: "b".to_string(), token: tok("b") },
      Reference::Call { name: "f".to_string(), arguments: 2, token: tok("f") },
      Reference::Variable { name: "c".to_string(), token: tok("c") },
    ]
  );
}

#[test]
fn variables_resolve_to_parameters_assignments_and_constants() {
  let assignments = vec!["version".to_string()];
  let functions = Vec::new();
  let builtins = builtins();
  let resolver = FunctionResolver { assignments: &assignments, functions: &functions, builtins: &builtins };
  let parameters = vec!["x".to_string()];
  assert_eq!(resolver.resolve_variable("x", tok("x"), &parameters), Ok(()));
  assert_eq!(resolver.resolve_variable("version", tok("version"), &parameters), Ok(()));
  assert_eq!(resolver.resolve_variable("HEX", tok("HEX"), &parameters), Ok(()));
  assert_eq!(
    resolver.resolve_variable("y", tok("y"), &parameters),
    err("y", CompileErrorKind::UndefinedVariable { variable: "y".to_string() })
  );
}

#[test]
fn calls_are_checked_against_functions_then_builtins() {
  let assignments = Vec::new();
  let functions = vec![function("uppercase", &["a", "b"], variable("a"))];
  let builtins = builtins();
  let resolver = FunctionResolver { assignments: &assignments, functions: &functions, builtins: &builtins };
  assert_eq!(resolver.resolve_call("uppercase", tok("uppercase"), 2), Ok(()));
  assert_eq!(
    resolver.resolve_call("uppercase", tok("uppercase"), 1),
    err("uppercase", CompileErrorKind::FunctionArgumentCountMismatch {
      function: "uppercase".to_string(),
      found: 1,
      min: 2,
      max: 2,
    })
  );
  assert_eq!(resolver.resolve_call("env", tok("env"), 2), Ok(()));
  assert_eq!(
    resolver.resolve_call("env", tok("env"), 3),
    err("env", CompileErrorKind::FunctionArgumentCountMismatch {
      function: "env".to_string(),
      found: 3,
      min: 1,
      max: 2,
    })
  );
  assert_eq!(
    resolver.resolve_call("nope", tok("nope"), 0),
    err("nope", CompileErrorKind::UnknownFunction { function: "nope".to_string() })
  );
}

#[test]
fn the_first_unresolved_reference_is_reported() {
  let assignments = Vec::new();
  let functions = Vec::new();
  let builtins = builtins();
  let resolver = FunctionResolver { assignments: &assignments, functions: &functions, builtins: &builtins };
  let expression = call("nope", vec![variable("missing")]);
  assert_eq!(
    resolver.resolve_expression(&expression, &vec![]),
    err("missing", CompileErrorKind::UndefinedVariable { variable: "missing".to_string() })
  );
  assert_eq!(
    FunctionResolver::resolve_calls(&functions, &builtins, &expression),
    err("nope", CompileErrorKind::UnknownFunction { function: "nope".to_string() })
  );
  let fine = call("env", vec![variable("x")]);
  assert_eq!(resolver.resolve_expression(&fine, &vec!["x".to_string()]), Ok(()));
}

#[test]
fn function_bodies_are_resolved_in_order() {
  let assignments = vec!["root".to_string()];
  let builtins = builtins();
  let good = vec![
    function("first", &["a"], call("env", vec![variable("a"), variable("root")])),
    function("second", &[], call("first", vec![variable("root")])),
  ];
  assert_eq!(FunctionResolver::resolve_functions(&assignments, &good, &builtins), Ok(()));
  let bad = vec![
    function("first", &["a"], variable("a")),
    function("second", &[], call("first", vec![])),
    function("third", &[], variable("nothing")),
  ];
  assert_eq!(
    FunctionResolver::resolve_functions(&assignments, &bad, &builtins),
    err("first", CompileErrorKind::FunctionArgumentCountMismatch {
      function: "first".to_string(),
      found: 0,
      min: 1,
      max: 1,
    })
  );
}
