use just::expression_context::ExpressionContext;
use just::conditional_operator::ConditionalOperator;
use just::const_error::{ConstError, Name};
use just::expression::{
  Condition, Dependency, DependencyArgument, Enum, Expression, Fragment, Serialized,
};
use just::token::{Token, TokenKind};
use just::string_kind::{StringDelimiter, StringKind};
use just::string_literal::{FormatStringPart, StringLiteral};

fn name_token() -> Token {
  Token { offset: 0, length: 1, line: 0, column: 0, kind: TokenKind::Identifier }
}

fn var(name: &str) -> Expression {
  Expression::Variable { name: name.into(), token: name_token() }
}

fn boxed(e: Expression) -> Box<Expression> {
  Box::new(e)
}

fn quoted(text: &str) -> StringLiteral {
  StringLiteral {
    cooked: text.into(),
    expand: false,
    kind: StringKind {
      delimiter: StringDelimiter::QuoteDouble,
      indented: false,
    },
    part: None,
    raw: text.into(),
  }
}

fn text(s: &str) -> Serialized {
  Serialized::Text(s.into())
}

#[test]
fn display_operators() {
  let and = Expression::And {
    lhs: boxed(var("a")),
    rhs: boxed(var("b")),
  };
  assert_eq!(and.to_string(), "a && b");

  let or = Expression::Or {
    lhs: boxed(var("a")),
    rhs: boxed(Expression::Not {
      operand: boxed(var("b")),
    }),
  };
  assert_eq!(or.to_string(), "a || !b");

  let join = Expression::Join {
    lhs: None,
    rhs: boxed(var("x")),
  };
  assert_eq!(join.to_string(), "/ x");

  let join = Expression::Join {
    lhs: Some(boxed(var("a"))),
    rhs: boxed(var("b")),
  };
  assert_eq!(join.to_string(), "a / b");

  let concatenation = Expression::Concatenation {
    lhs: boxed(Expression::StringLiteral {
      string_literal: StringLiteral::from_raw("x"),
    }),
    rhs: boxed(Expression::Group {
      contents: boxed(var("y")),
    }),
  };
  assert_eq!(concatenation.to_string(), "'x' + (y)");

  let lists = Expression::ListConcatenation {
    lhs: boxed(Expression::List {
      elements: vec![var("a"), var("b")],
    }),
    rhs: boxed(Expression::List { elements: Vec::new() }),
  };
  assert_eq!(lists.to_string(), "[a, b] ++ []");
}

#[test]
fn display_calls_and_conditionals() {
  let call = Expression::Call {
    name: "join".into(),
    token: name_token(),
    arguments: vec![var("a"), var("b"), var("c")],
  };
  assert_eq!(call.to_string(), "join(a, b, c)");

  let assert = Expression::Assert {
    condition: boxed(Expression::Comparison {
      lhs: boxed(var("a")),
      operator: ConditionalOperator::Inequality,
      rhs: boxed(var("b")),
    }),
    message: Some(boxed(Expression::StringLiteral {
      string_literal: quoted("bad"),
    })),
    name: "assert".into(),
  };
  assert_eq!(assert.to_string(), "assert(a != b, \"bad\")");

  let inner = Expression::Conditional {
    condition: boxed(Expression::Comparison {
      lhs: boxed(var("a")),
      operator: ConditionalOperator::RegexMatch,
      rhs: boxed(var("c")),
    }),
    if_true: boxed(var("d")),
    otherwise: Some(boxed(var("e"))),
  };
  let outer = Expression::Conditional {
    condition: boxed(Expression::Comparison {
      lhs: boxed(var("a")),
      operator: ConditionalOperator::Equality,
      rhs: boxed(var("b")),
    }),
    if_true: boxed(var("c")),
    otherwise: Some(boxed(inner)),
  };
  assert_eq!(
    outer.to_string(),
    "if a == b { c } else if a =~ c { d } else { e }"
  );

  let backtick = Expression::Backtick {
    contents: "ls".into(),
    lexeme: "`ls`".into(),
  };
  assert_eq!(backtick.to_string(), "`ls`");
}

#[test]
fn display_string_literals() {
  let mut expanded = quoted("~/x");
  expanded.expand = true;
  assert_eq!(expanded.to_string(), "x\"~/x\"");

  let indented = StringLiteral {
    kind: StringKind {
      delimiter: StringDelimiter::QuoteSingle,
      indented: true,
    },
    ..StringLiteral::from_raw("a")
  };
  assert_eq!(indented.to_string(), "'''a'''");

  let mut start = quoted("a ");
  start.part = Some(FormatStringPart::Start);
  let mut end = quoted(" b");
  end.part = Some(FormatStringPart::End);
  let format = Expression::FormatString {
    start,
    expressions: vec![(var("x"), end)],
  };
  assert_eq!(format.to_string(), "f\"a {{x}} b\"");
}

#[test]
fn serialize_expressions() {
  let call = Expression::Call {
    name: "f".into(),
    token: name_token(),
    arguments: vec![
      var("a"),
      Expression::StringLiteral {
        string_literal: quoted("s"),
      },
    ],
  };
  assert_eq!(
    call.serialize(),
    Serialized::List(vec![
      text("call"),
      text("f"),
      Serialized::List(vec![text("variable"), text("a")]),
      text("s"),
    ])
  );

  let group = Expression::Group {
    contents: boxed(Expression::Backtick {
      contents: "ls".into(),
      lexeme: "`ls`".into(),
    }),
  };
  assert_eq!(
    group.serialize(),
    Serialized::List(vec![text("evaluate"), text("ls")])
  );

  let conditional = Expression::Conditional {
    condition: boxed(var("a")),
    if_true: boxed(var("b")),
    otherwise: None,
  };
  assert_eq!(
    conditional.serialize(),
    Serialized::List(vec![
      text("if"),
      Serialized::List(vec![text("variable"), text("a")]),
      Serialized::List(vec![text("variable"), text("b")]),
      Serialized::Null,
    ])
  );

  let join = Expression::Join {
    lhs: None,
    rhs: boxed(var("x")),
  };
  assert_eq!(
    join.serialize(),
    Serialized::List(vec![
      text("join"),
      Serialized::Null,
      Serialized::List(vec![text("variable"), text("x")]),
    ])
  );
}

#[test]
fn conditions() {
  let condition = Condition {
    lhs: boxed(var("a")),
    rhs: boxed(var("b")),
    operator: ConditionalOperator::RegexMismatch,
  };
  assert_eq!(condition.to_string(), "a !~ b");
  assert_eq!(
    condition.serialize(),
    Serialized::List(vec![
      text("!~"),
      Serialized::List(vec![text("variable"), text("a")]),
      Serialized::List(vec![text("variable"), text("b")]),
    ])
  );
}

#[test]
fn dependencies() {
  let plain = Dependency {
    arguments: Vec::new(),
    path: "build".into(),
  };
  assert_eq!(plain.star(), None);
  assert_eq!(plain.to_string(), "build");

  let with_arguments = Dependency {
    arguments: vec![
      vec![DependencyArgument {
        expression: var("a"),
        starred: false,
      }],
      vec![
        DependencyArgument {
          expression: var("b"),
          starred: false,
        },
        DependencyArgument {
          expression: var("c"),
          starred: true,
        },
      ],
    ],
    path: "mod::test".into(),
  };
  assert_eq!(with_arguments.star(), Some(1));
  assert_eq!(with_arguments.to_string(), "*(mod::test a b *c)");

  let unstarred = Dependency {
    arguments: vec![vec![DependencyArgument {
      expression: var("a"),
      starred: false,
    }]],
    path: "x".into(),
  };
  assert_eq!(unstarred.star(), None);
  assert_eq!(unstarred.to_string(), "(x a)");
}

#[test]
fn expression_contexts() {
  assert!(!ExpressionContext::new().shadows("a"));
  let context = ExpressionContext::from_bindings(&[("a".to_string(), 0), ("b".to_string(), 1)]);
  assert!(context.shadows("a"));
  assert!(context.shadows("b"));
  assert!(!context.shadows("c"));
}

#[test]
fn fragments() {
  assert_eq!(
    Fragment::Text {
      lexeme: "echo ".into()
    }
    .serialize(),
    text("echo ")
  );
  assert_eq!(
    Fragment::Interpolation { expression: var("x") }.serialize(),
    Serialized::List(vec![Serialized::List(vec![text("variable"), text("x")])])
  );
}

#[test]
fn serialize_dependencies() {
  let dependency = Dependency {
    arguments: vec![
      vec![DependencyArgument {
        expression: var("a"),
        starred: false,
      }],
      vec![
        DependencyArgument {
          expression: var("b"),
          starred: false,
        },
        DependencyArgument {
          expression: var("c"),
          starred: true,
        },
      ],
    ],
    path: "build".into(),
  };
  assert_eq!(
    dependency.serialize(),
    Serialized::Fields(vec![
      (
        "arguments".into(),
        Serialized::List(vec![
          Serialized::List(vec![text("variable"), text("a")]),
          Serialized::List(vec![text("variable"), text("b")]),
          Serialized::List(vec![text("variable"), text("c")]),
        ])
      ),
      ("recipe".into(), text("build")),
      ("star".into(), Serialized::Number(2)),
    ])
  );
  let plain = Dependency {
    arguments: Vec::new(),
    path: "x".into(),
  };
  assert_eq!(
    plain.serialize(),
    Serialized::Fields(vec![
      ("arguments".into(), Serialized::List(Vec::new())),
      ("recipe".into(), text("x")),
      ("star".into(), Serialized::Null),
    ])
  );
}

#[test]
fn enums() {
  let e = Enum {
    name: "color".into(),
    variants: vec![("blue".into(), quoted("b")), ("red".into(), quoted("r"))],
  };
  assert_eq!(e.to_string(), "enum color := [ \"blue\" = \"b\", \"red\" = \"r\" ]");
  let empty = Enum {
    name: "e".into(),
    variants: Vec::new(),
  };
  assert_eq!(empty.to_string(), "enum e := [  ]");
}

#[test]
fn const_errors() {
  let token = Token {
    offset: 3,
    length: 1,
    line: 0,
    column: 3,
    kind: TokenKind::Identifier,
  };
  let name = Name {
    token,
    lexeme: "x".into(),
  };
  assert_eq!(ConstError::Variable(name.clone()).context(), token);
  assert_eq!(
    ConstError::Variable(name.clone()).message(),
    "Cannot access non-const variable `x` in const context"
  );
  assert_eq!(
    ConstError::FunctionCall(name).message(),
    "Cannot call functions in const context"
  );
  assert_eq!(
    ConstError::Backtick(token).message(),
    "Cannot call backticks in const context"
  );
}
