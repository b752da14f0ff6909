use just::config::{
  check_subcommand_inputs, command_line_overrides, parse_modulepath, parse_override, parse_set_overrides, search_config, split_whitespace, subcommand,
  ConfigError, DumpFormat, EvaluateFormat, SearchConfig, Shell, Subcommand, SubcommandFlags,
};
use just::invocation_parser::ModulePath;
use std::path::PathBuf;

fn strings(items: &[&str]) -> Vec<String> {
  items.iter().map(|s| s.to_string()).collect()
}

#[test]
fn words_are_split_on_whitespace() {
  assert_eq!(split_whitespace("  a b\t c  "), strings(&["a", "b", "c"]));
  assert!(split_whitespace("   ").is_empty());
}

#[test]
fn module_paths_from_arguments() {
  assert_eq!(parse_modulepath(&strings(&["foo", "bar"])).unwrap().path, strings(&["foo", "bar"]));
  assert_eq!(parse_modulepath(&strings(&["foo bar"])).unwrap().path, strings(&["foo", "bar"]));
  assert_eq!(parse_modulepath(&strings(&["foo::bar"])).unwrap().path, strings(&["foo", "bar"]));
  assert!(parse_modulepath(&strings(&[])).unwrap().path.is_empty());
  assert_eq!(
    parse_modulepath(&strings(&["foo", "1x"])),
    Err(ConfigError::ModulePath { path: strings(&["foo", "1x"]) })
  );
}

#[test]
fn override_paths_end_in_the_variable() {
  let (path, name) = parse_override("foo::bar::baz").unwrap();
  assert_eq!(path.path, strings(&["foo", "bar"]));
  assert_eq!(name, "baz");
  let (path, name) = parse_override("x").unwrap();
  assert!(path.path.is_empty());
  assert_eq!(name, "x");
  assert_eq!(parse_override("a::"), Err(ConfigError::OverridePath { path: "a::".to_string() }));
}

#[test]
fn set_overrides_come_in_pairs_and_later_ones_win() {
  let overrides = parse_set_overrides(&strings(&["x", "1", "m::y", "2", "x", "3"])).unwrap();
  assert_eq!(overrides.len(), 2);
  assert_eq!(overrides[0].name, "x");
  assert_eq!(overrides[0].value, "3");
  assert_eq!(overrides[1].path.path, strings(&["m"]));
  assert_eq!(overrides[1].name, "y");
  assert_eq!(overrides[1].value, "2");
  assert_eq!(
    parse_set_overrides(&strings(&["x", "1", "y"])),
    Err(ConfigError::Internal { message: "--set for `y` did not have value".to_string() })
  );
  assert_eq!(
    parse_set_overrides(&strings(&["9", "1"])),
    Err(ConfigError::OverridePath { path: "9".to_string() })
  );
}

#[test]
fn where_to_search() {
  let dir = || Some(PathBuf::from("dir"));
  assert_eq!(search_config(true, dir(), None, dir()), Ok(SearchConfig::GlobalJustfile));
  assert_eq!(search_config(false, dir(), None, dir()), Err(ConfigError::SearchDirConflict));
  assert_eq!(
    search_config(false, None, None, dir()),
    Ok(SearchConfig::FromSearchDirectory { search_directory: PathBuf::from("dir") })
  );
  assert_eq!(search_config(false, None, None, None), Ok(SearchConfig::FromInvocationDirectory));
  assert_eq!(
    search_config(false, Some(PathBuf::from("j")), Some(PathBuf::from("w")), None),
    Ok(SearchConfig::WithJustfileAndWorkingDirectory {
      justfile: PathBuf::from("j"),
      working_directory: PathBuf::from("w"),
    })
  );
  assert_eq!(
    search_config(false, None, Some(PathBuf::from("w")), None),
    Err(ConfigError::Internal { message: "--working-directory set without --justfile".to_string() })
  );
}

fn run(flags: SubcommandFlags, positional: &[&str]) -> Result<Subcommand, ConfigError> {
  subcommand(
    &flags,
    &Some("fzf".to_string()),
    DumpFormat::Just,
    EvaluateFormat::Shell,
    &strings(positional),
  )
}

#[test]
fn subcommands_in_order_of_precedence() {
  assert_eq!(run(SubcommandFlags::default(), &["a", "b"]), Ok(Subcommand::Run { arguments: strings(&["a", "b"]) }));
  assert_eq!(
    run(SubcommandFlags { changelog: true, choose: true, ..Default::default() }, &[]),
    Ok(Subcommand::Changelog)
  );
  assert_eq!(
    run(SubcommandFlags { choose: true, dump: true, ..Default::default() }, &[]),
    Ok(Subcommand::Choose { chooser: Some("fzf".to_string()) })
  );
  assert_eq!(
    run(SubcommandFlags { command: Some(strings(&["ls", "-l"])), ..Default::default() }, &[]),
    Ok(Subcommand::Command { binary: "ls".to_string(), arguments: strings(&["-l"]) })
  );
  assert_eq!(
    run(SubcommandFlags { completions: Some(Shell::Zsh), ..Default::default() }, &[]),
    Ok(Subcommand::Completions { shell: Shell::Zsh })
  );
  assert_eq!(
    run(SubcommandFlags { json: true, ..Default::default() }, &[]),
    Ok(Subcommand::Dump { format: DumpFormat::Json })
  );
  assert_eq!(
    run(SubcommandFlags { list: Some(strings(&["foo::bar"])), ..Default::default() }, &[]),
    Ok(Subcommand::List { path: ModulePath { path: strings(&["foo", "bar"]) } })
  );
  assert_eq!(
    run(SubcommandFlags { show: Some(strings(&["1"])), ..Default::default() }, &[]),
    Err(ConfigError::ModulePath { path: strings(&["1"]) })
  );
  assert_eq!(
    run(SubcommandFlags { request: Some("{}".to_string()), ..Default::default() }, &[]),
    Ok(Subcommand::Request { request: "{}".to_string() })
  );
}

#[test]
fn evaluate_takes_at_most_one_module_path() {
  let evaluate = || SubcommandFlags { evaluate: true, ..Default::default() };
  assert_eq!(
    run(evaluate(), &[]),
    Ok(Subcommand::Evaluate { format: EvaluateFormat::Shell, path: ModulePath { path: Vec::new() } })
  );
  assert_eq!(
    run(evaluate(), &["foo"]),
    Ok(Subcommand::Evaluate { format: EvaluateFormat::Shell, path: ModulePath { path: strings(&["foo"]) } })
  );
  assert_eq!(
    run(evaluate(), &["foo", "bar", "baz"]),
    Err(ConfigError::SubcommandArguments {
      subcommand: "EVALUATE".to_string(),
      arguments: strings(&["bar", "baz"]),
    })
  );
}

#[test]
fn positional_overrides_follow_set_overrides() {
  let positional = vec![("x".to_string(), "4".to_string()), ("z".to_string(), "5".to_string())];
  let overrides = command_line_overrides(&strings(&["x", "1", "y", "2"]), &positional).unwrap();
  let mut pairs: Vec<(String, String)> = overrides.iter().map(|o| (o.name.clone(), o.value.clone())).collect();
  pairs.sort();
  assert_eq!(
    pairs,
    vec![("x".to_string(), "4".to_string()), ("y".to_string(), "2".to_string()), ("z".to_string(), "5".to_string())]
  );
  let bad = vec![("1x".to_string(), "v".to_string())];
  assert_eq!(
    command_line_overrides(&Vec::new(), &bad),
    Err(ConfigError::OverridePath { path: "1x".to_string() })
  );
}

#[test]
fn subcommands_without_arguments_refuse_them() {
  let some_overrides = || command_line_overrides(&strings(&["x", "1"]), &Vec::new()).unwrap();
  assert_eq!(check_subcommand_inputs(true, "RUN", some_overrides(), strings(&["a"])), Ok(()));
  assert_eq!(check_subcommand_inputs(false, "LIST", Vec::new(), Vec::new()), Ok(()));
  assert!(matches!(
    check_subcommand_inputs(false, "LIST", some_overrides(), Vec::new()),
    Err(ConfigError::SubcommandOverrides { subcommand, overrides }) if subcommand == "LIST" && overrides.len() == 1
  ));
  assert_eq!(
    check_subcommand_inputs(false, "LIST", Vec::new(), strings(&["a"])),
    Err(ConfigError::SubcommandArguments { subcommand: "LIST".to_string(), arguments: strings(&["a"]) })
  );
  assert!(matches!(
    check_subcommand_inputs(false, "LIST", some_overrides(), strings(&["a"])),
    Err(ConfigError::SubcommandOverridesAndArguments { subcommand, arguments, .. })
      if subcommand == "LIST" && arguments == strings(&["a"])
  ));
}
