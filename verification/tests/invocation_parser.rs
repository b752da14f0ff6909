use just::invocation_parser::{InvocationError, InvocationParser, ModulePath};
use just::justfile::{Alias, Justfile, Parameter, ParameterKind, Recipe, Suggestion};

fn param(name: &str, kind: ParameterKind, has_default: bool, long: Option<&str>) -> Parameter {
  Parameter {
    name: name.into(),
    long: long.map(String::from),
    kind,
    has_default,
  }
}

fn singular(name: &str) -> Parameter {
  param(name, ParameterKind::Singular, false, None)
}

fn recipe(name: &str, parameters: Vec<Parameter>) -> Recipe {
  Recipe {
    name: name.into(),
    parameters,
    private: false,
    groups: Vec::new(),
    import_offsets: Vec::new(),
    offset: 0,
  }
}

fn copy(recipe: &Recipe) -> Recipe {
  Recipe {
    name: recipe.name.clone(),
    parameters: recipe
      .parameters
      .iter()
      .map(|p| Parameter {
        name: p.name.clone(),
        long: p.long.clone(),
        kind: p.kind,
        has_default: p.has_default,
      })
      .collect(),
    private: recipe.private,
    groups: recipe.groups.clone(),
    import_offsets: recipe.import_offsets.clone(),
    offset: recipe.offset,
  }
}

/// A module whose default recipe is its first one, as for a recipe file.
fn module(name: Option<&str>, recipes: Vec<Recipe>, modules: Vec<Justfile>) -> Justfile {
  Justfile {
    aliases: Vec::new(),
    assignments: Vec::new(),
    default: recipes.first().map(copy),
    groups: Vec::new(),
    modules,
    name: name.map(String::from),
    name_offset: 0,
    private: false,
    recipes,
  }
}

fn strings(items: &[&str]) -> Vec<String> {
  items.iter().map(|s| s.to_string()).collect()
}

#[test]
fn single_no_arguments() {
  let justfile = module(None, vec![recipe("foo", Vec::new())], Vec::new());

  let invocations = InvocationParser::parse_invocations(&justfile, &["foo"]).unwrap();

  assert_eq!(invocations.len(), 1);
  assert_eq!(invocations[0].recipe.name, "foo");
  assert!(invocations[0].arguments.is_empty());
}

#[test]
fn single_with_argument() {
  let justfile = module(None, vec![recipe("foo", vec![singular("bar")])], Vec::new());

  let invocations = InvocationParser::parse_invocations(&justfile, &["foo", "baz"]).unwrap();

  assert_eq!(invocations.len(), 1);
  assert_eq!(invocations[0].recipe.name, "foo");
  assert_eq!(invocations[0].arguments, vec![vec![String::from("baz")]]);
}

#[test]
fn single_argument_count_mismatch() {
  let justfile = module(None, vec![recipe("foo", vec![singular("bar")])], Vec::new());

  assert!(matches!(
    InvocationParser::parse_invocations(&justfile, &["foo"]).unwrap_err(),
    InvocationError::PositionalArgumentCountMismatch {
      recipe,
      found: 0,
      min: 1,
      max: 1,
      ..
    } if recipe == "foo"
  ));
}

#[test]
fn single_unknown() {
  let justfile = module(None, vec![recipe("foo", Vec::new())], Vec::new());

  assert!(matches!(
    InvocationParser::parse_invocations(&justfile, &["bar"]).unwrap_err(),
    InvocationError::UnknownRecipe {
      recipe,
      suggestion: None
    } if recipe == "bar"
  ));
}

#[test]
fn multiple_unknown() {
  let justfile = module(None, vec![recipe("foo", Vec::new())], Vec::new());

  assert!(matches!(
    InvocationParser::parse_invocations(&justfile, &["bar", "baz"]).unwrap_err(),
    InvocationError::UnknownRecipe {
      recipe,
      suggestion: None
    } if recipe == "bar"
  ));
}

/// `mod foo`, with `bar:` in the module's file.
fn with_submodule() -> Justfile {
  let foo = module(Some("foo"), vec![recipe("bar", Vec::new())], Vec::new());
  module(None, Vec::new(), vec![foo])
}

#[test]
fn recipe_in_submodule() {
  let justfile = with_submodule();

  let invocations = InvocationParser::parse_invocations(&justfile, &["foo", "bar"]).unwrap();

  assert_eq!(invocations.len(), 1);
  assert_eq!(invocations[0].recipe.name, "bar");
  assert!(std::ptr::eq(invocations[0].recipe, &justfile.modules[0].recipes[0]));
  assert!(invocations[0].arguments.is_empty());
}

#[test]
fn recipe_in_submodule_unknown() {
  let justfile = with_submodule();

  assert!(matches!(
    InvocationParser::parse_invocations(&justfile, &["foo", "zzz"]).unwrap_err(),
    InvocationError::UnknownRecipe {
      recipe,
      suggestion: None
    } if recipe == "foo zzz"
  ));
}

#[test]
fn recipe_in_submodule_path_unknown() {
  let justfile = with_submodule();

  assert!(matches!(
    InvocationParser::parse_invocations(&justfile, &["foo::zzz"]).unwrap_err(),
    InvocationError::UnknownRecipe {
      recipe,
      suggestion: None
    } if recipe == "foo::zzz"
  ));
}

#[test]
fn module_path_not_consumed() {
  let justfile = with_submodule();

  assert!(matches!(
    InvocationParser::parse_invocations(&justfile, &["foo::bar::baz"]).unwrap_err(),
    InvocationError::ExpectedSubmoduleButFoundRecipe {
      path,
    } if path == "foo::bar"
  ));
}

#[test]
fn no_recipes() {
  let justfile = module(None, Vec::new(), Vec::new());

  assert!(matches!(
    InvocationParser::parse_invocations(&justfile, &[]).unwrap_err(),
    InvocationError::NoRecipes
  ));
}

#[test]
fn default_recipe_requires_arguments() {
  let justfile = module(None, vec![recipe("foo", vec![singular("bar")])], Vec::new());

  assert!(matches!(
    InvocationParser::parse_invocations(&justfile, &[]).unwrap_err(),
    InvocationError::DefaultRecipeRequiresArguments {
      recipe,
      min_arguments: 1,
    } if recipe == "foo"
  ));
}

#[test]
fn no_default_recipe() {
  // `import 'foo.just'`, with `bar:` in the imported file: imported recipes
  // are not default recipes.
  let mut justfile = module(None, vec![recipe("bar", Vec::new())], Vec::new());
  justfile.default = None;

  assert!(matches!(
    InvocationParser::parse_invocations(&justfile, &[]).unwrap_err(),
    InvocationError::NoDefaultRecipe
  ));
}

#[test]
fn complex_grouping() {
  let justfile = module(
    None,
    vec![
      recipe(
        "FOO",
        vec![
          singular("A"),
          param("B", ParameterKind::Singular, true, None),
        ],
      ),
      recipe("BAR", vec![singular("X")]),
      recipe("BAZ", vec![param("Z", ParameterKind::Plus, false, None)]),
    ],
    Vec::new(),
  );

  let invocations = InvocationParser::parse_invocations(
    &justfile,
    &["BAR", "0", "FOO", "1", "2", "BAZ", "3", "4", "5"],
  )
  .unwrap();

  assert_eq!(invocations.len(), 3);
  assert_eq!(invocations[0].recipe.name, "BAR");
  assert_eq!(invocations[0].arguments, vec![vec![String::from("0")]]);
  assert_eq!(invocations[1].recipe.name, "FOO");
  assert_eq!(
    invocations[1].arguments,
    vec![vec![String::from("1")], vec![String::from("2")]]
  );
  assert_eq!(invocations[2].recipe.name, "BAZ");
  assert_eq!(
    invocations[2].arguments,
    vec![vec![
      String::from("3"),
      String::from("4"),
      String::from("5")
    ]]
  );
}

#[test]
fn long_argument() {
  let justfile = module(
    None,
    vec![recipe(
      "foo",
      vec![param("bar", ParameterKind::Singular, false, Some("bar"))],
    )],
    Vec::new(),
  );

  let invocations =
    InvocationParser::parse_invocations(&justfile, &["foo", "--bar", "baz"]).unwrap();

  assert_eq!(invocations.len(), 1);
  assert_eq!(invocations[0].recipe.name, "foo");
  assert_eq!(invocations[0].arguments, vec![vec![String::from("baz")]]);
}

#[test]
fn long_argument_with_positional() {
  let justfile = module(
    None,
    vec![recipe(
      "foo",
      vec![
        singular("baz"),
        param("bar", ParameterKind::Singular, false, Some("bar")),
      ],
    )],
    Vec::new(),
  );

  let invocations =
    InvocationParser::parse_invocations(&justfile, &["foo", "qux", "--bar", "baz"]).unwrap();

  assert_eq!(invocations.len(), 1);
  assert_eq!(invocations[0].recipe.name, "foo");
  assert_eq!(
    invocations[0].arguments,
    vec![vec![String::from("qux")], vec![String::from("baz")]]
  );
}

#[test]
fn long_argument_terminator() {
  let justfile = module(
    None,
    vec![recipe(
      "foo",
      vec![
        singular("baz"),
        param("qux", ParameterKind::Singular, true, None),
        param("bar", ParameterKind::Singular, true, Some("bar")),
      ],
    )],
    Vec::new(),
  );

  let invocations =
    InvocationParser::parse_invocations(&justfile, &["foo", "--", "--bar"]).unwrap();

  assert_eq!(invocations.len(), 1);
  assert_eq!(invocations[0].recipe.name, "foo");
  assert_eq!(
    invocations[0].arguments,
    vec![vec![String::from("--bar")], Vec::new(), Vec::new()]
  );
}

fn count_mismatch(src: Vec<Parameter>, args: &[&str]) -> (usize, usize, usize) {
  let justfile = module(None, vec![recipe("a", src)], Vec::new());
  match InvocationParser::parse_invocations(&justfile, args).unwrap_err() {
    InvocationError::PositionalArgumentCountMismatch {
      recipe,
      found,
      min,
      max,
      ..
    } => {
      assert_eq!(recipe, "a");
      (found, min, max)
    }
    other => panic!("unexpected error: {other:?}"),
  }
}

#[test]
fn missing_some_arguments() {
  let params = vec![singular("b"), singular("c"), singular("d")];
  assert_eq!(count_mismatch(params, &["a", "b", "c"]), (2, 3, 3));
}

#[test]
fn missing_some_arguments_variadic() {
  let params = vec![
    singular("b"),
    singular("c"),
    param("d", ParameterKind::Plus, false, None),
  ];
  assert_eq!(
    count_mismatch(params, &["a", "B", "C"]),
    (2, 3, usize::MAX - 1)
  );
}

#[test]
fn missing_all_arguments() {
  let params = vec![singular("b"), singular("c"), singular("d")];
  assert_eq!(count_mismatch(params, &["a"]), (0, 3, 3));
}

#[test]
fn missing_some_defaults() {
  let params = vec![
    singular("b"),
    singular("c"),
    param("d", ParameterKind::Singular, true, None),
  ];
  assert_eq!(count_mismatch(params, &["a", "b"]), (1, 2, 3));
}

#[test]
fn missing_all_defaults() {
  let params = vec![
    singular("b"),
    param("c", ParameterKind::Singular, true, None),
    param("d", ParameterKind::Singular, true, None),
  ];
  assert_eq!(count_mismatch(params, &["a"]), (0, 1, 3));
}

fn with_option() -> Justfile {
  module(
    None,
    vec![
      recipe(
        "foo",
        vec![
          singular("baz"),
          param("bar", ParameterKind::Singular, false, Some("bar")),
        ],
      ),
      recipe("other", Vec::new()),
    ],
    Vec::new(),
  )
}

#[test]
fn option_with_equals_sign() {
  let justfile = with_option();
  let invocations =
    InvocationParser::parse_invocations(&justfile, &["foo", "--bar=x=y", "q", "other"]).unwrap();
  assert_eq!(invocations.len(), 2);
  assert_eq!(invocations[0].arguments, vec![strings(&["q"]), strings(&["x=y"])]);
  assert_eq!(invocations[1].recipe.name, "other");
  assert!(invocations[1].arguments.is_empty());
}

#[test]
fn option_errors() {
  let justfile = with_option();
  assert_eq!(
    InvocationParser::parse_invocations(&justfile, &["foo", "q", "--bar"]).unwrap_err(),
    InvocationError::OptionMissingValue {
      recipe: "foo".into(),
      option: "bar".into(),
    }
  );
  assert_eq!(
    InvocationParser::parse_invocations(&justfile, &["foo", "--baz", "x"]).unwrap_err(),
    InvocationError::UnknownOption {
      recipe: "foo".into(),
      option: "baz".into(),
    }
  );
  assert_eq!(
    InvocationParser::parse_invocations(&justfile, &["foo", "--bar", "x", "--bar=y"]).unwrap_err(),
    InvocationError::DuplicateOption {
      recipe: "foo".into(),
      option: "bar".into(),
    }
  );
  assert_eq!(
    InvocationParser::parse_invocations(&justfile, &["foo", "q"]).unwrap_err(),
    InvocationError::MissingOption {
      recipe: "foo".into(),
      option: "bar".into(),
    }
  );
  // A missing option is reported before missing positional arguments.
  assert_eq!(
    InvocationParser::parse_invocations(&justfile, &["foo"]).unwrap_err(),
    InvocationError::MissingOption {
      recipe: "foo".into(),
      option: "bar".into(),
    }
  );
}

#[test]
fn options_only_when_declared() {
  let justfile = module(None, vec![recipe("foo", vec![singular("x")])], Vec::new());
  let invocations = InvocationParser::parse_invocations(&justfile, &["foo", "--x"]).unwrap();
  assert_eq!(invocations[0].arguments, vec![strings(&["--x"])]);
}

#[test]
fn unknown_submodule_and_suggestion() {
  let justfile = with_submodule();
  assert_eq!(
    InvocationParser::parse_invocations(&justfile, &["foo::nope::bar"]).unwrap_err(),
    InvocationError::UnknownSubmodule {
      path: "foo::nope".into()
    }
  );
  assert_eq!(
    InvocationParser::parse_invocations(&justfile, &["foo", "baz"]).unwrap_err(),
    InvocationError::UnknownRecipe {
      recipe: "foo baz".into(),
      suggestion: Some(Suggestion {
        name: "bar".into(),
        target: None,
      }),
    }
  );
  assert_eq!(
    InvocationParser::parse_invocations(&justfile, &["foo:bar"]).unwrap_err(),
    InvocationError::UnknownRecipe {
      recipe: "foo:bar".into(),
      suggestion: None,
    }
  );
}

#[test]
fn walking_into_a_module_runs_its_default() {
  let justfile = with_submodule();
  let invocations = InvocationParser::parse_invocations(&justfile, &["foo"]).unwrap();
  assert_eq!(invocations.len(), 1);
  assert_eq!(invocations[0].recipe.name, "bar");

  let invocations = InvocationParser::parse_invocations(&justfile, &["foo::bar"]).unwrap();
  assert_eq!(invocations[0].recipe.name, "bar");
}

#[test]
fn aliases_name_their_targets() {
  let mut justfile = module(None, vec![recipe("build", vec![singular("x")])], Vec::new());
  justfile.aliases.push(Alias {
    name: "b".into(),
    target: recipe("build", vec![singular("x")]),
    private: false,
  });
  let invocations = InvocationParser::parse_invocations(&justfile, &["b", "1"]).unwrap();
  assert_eq!(invocations[0].recipe.name, "build");
  assert_eq!(invocations[0].arguments, vec![strings(&["1"])]);
}

#[test]
fn module_paths() {
  assert_eq!(
    ModulePath::try_from(&["foo::bar"]),
    Some(ModulePath {
      path: strings(&["foo", "bar"])
    })
  );
  assert_eq!(
    ModulePath::try_from(&["foo", "bar"]),
    Some(ModulePath {
      path: strings(&["foo", "bar"])
    })
  );
  assert_eq!(ModulePath::try_from(&["foo:::bar"]), None);
  assert_eq!(ModulePath::try_from(&["::foo"]), None);
  assert_eq!(ModulePath::try_from(&["foo::"]), None);
  assert_eq!(ModulePath::try_from(&["foo bar"]), None);
  assert_eq!(ModulePath::try_from(&["1foo"]), None);
}

#[test]
fn default_recipe_checks() {
  let needs_one = recipe(
    "foo",
    vec![
      singular("a"),
      param("b", ParameterKind::Singular, true, None),
      param("c", ParameterKind::Star, false, None),
    ],
  );
  assert_eq!(needs_one.min_arguments(), 1);
  assert_eq!(
    needs_one.check_can_be_default_recipe(),
    Err(InvocationError::DefaultRecipeRequiresArguments {
      recipe: "foo".into(),
      min_arguments: 1,
    })
  );
  assert_eq!(recipe("bar", Vec::new()).check_can_be_default_recipe(), Ok(()));
}

#[test]
fn count_mismatch_carries_the_parameters() {
  let justfile = module(None, vec![recipe("foo", vec![singular("bar"), singular("baz")])], Vec::new());
  match InvocationParser::parse_invocations(&justfile, &["foo", "x"]).unwrap_err() {
    InvocationError::PositionalArgumentCountMismatch { parameters, found, .. } => {
      assert_eq!(found, 1);
      let names: Vec<&str> = parameters.iter().map(|p| p.name.as_str()).collect();
      assert_eq!(names, vec!["bar", "baz"]);
    }
    other => panic!("unexpected error: {other:?}"),
  }
}

#[test]
fn singular_parameters_take_arguments_in_order() {
  let justfile = module(
    None,
    vec![recipe("foo", vec![singular("a"), singular("b")]), recipe("bar", Vec::new())],
    Vec::new(),
  );
  let invocations = InvocationParser::parse_invocations(&justfile, &["foo", "1", "2", "bar"]).unwrap();
  assert_eq!(invocations.len(), 2);
  assert_eq!(invocations[0].recipe.name, "foo");
  assert_eq!(invocations[0].arguments, vec![strings(&["1"]), strings(&["2"])]);
  assert_eq!(invocations[1].recipe.name, "bar");
}
