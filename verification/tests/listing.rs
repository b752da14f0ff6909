use just::justfile::{Justfile, Recipe};
use just::string_literal::StringLiteral;

fn recipe(name: &str, private: bool, groups: &[&str], import_offsets: &[usize], offset: usize) -> Recipe {
  Recipe {
    name: name.to_string(),
    parameters: Vec::new(),
    private,
    groups: groups.iter().map(|g| g.to_string()).collect(),
    import_offsets: import_offsets.to_vec(),
    offset,
  }
}

fn module(name: &str, name_offset: usize, private: bool, groups: &[&str]) -> Justfile {
  Justfile {
    aliases: Vec::new(),
    assignments: Vec::new(),
    default: None,
    groups: groups.iter().map(|g| StringLiteral::from_raw(g)).collect(),
    modules: Vec::new(),
    name: Some(name.to_string()),
    name_offset,
    private,
    recipes: Vec::new(),
  }
}

fn justfile() -> Justfile {
  Justfile {
    aliases: Vec::new(),
    assignments: Vec::new(),
    default: None,
    groups: Vec::new(),
    modules: vec![
      module("zeta", 5, false, &["web", "alpha"]),
      module("hidden", 1, true, &["secret"]),
      module("beta", 40, false, &[]),
    ],
    name: None,
    name_offset: 0,
    private: false,
    recipes: vec![
      recipe("build", false, &["dev", "ci"], &[], 30),
      recipe("_helper", false, &["internal"], &[], 10),
      recipe("deploy", false, &["ops", "ci"], &[2], 0),
      recipe("test", false, &["ci"], &[], 20),
      recipe("secret", true, &["ops"], &[], 50),
    ],
  }
}

fn names(recipes: &[&Recipe]) -> Vec<String> {
  recipes.iter().map(|r| r.name.clone()).collect()
}

#[test]
fn public_recipes_by_name_or_by_position() {
  let justfile = justfile();
  assert_eq!(names(&justfile.public_recipes(false)), vec!["build", "deploy", "test"]);
  assert_eq!(names(&justfile.public_recipes(true)), vec!["test", "build", "deploy"]);
}

#[test]
fn public_modules_by_name_or_by_position() {
  let justfile = justfile();
  let modules: Vec<Option<String>> = justfile.public_modules(false).iter().map(|m| m.name.clone()).collect();
  assert_eq!(modules, vec![Some("beta".to_string()), Some("zeta".to_string())]);
  let modules: Vec<Option<String>> = justfile.public_modules(true).iter().map(|m| m.name.clone()).collect();
  assert_eq!(modules, vec![Some("zeta".to_string()), Some("beta".to_string())]);
}

#[test]
fn public_groups_sorted_and_distinct() {
  let justfile = justfile();
  assert_eq!(justfile.public_groups(false), vec!["alpha", "ci", "dev", "ops", "web"]);
}

#[test]
fn public_groups_in_order_of_first_appearance() {
  let justfile = justfile();
  assert_eq!(justfile.public_groups(true), vec!["alpha", "web", "ci", "dev", "ops"]);
}

#[test]
fn suggestions_break_ties_by_name_not_by_position() {
  let mut justfile = justfile();
  justfile.recipes = vec![recipe("bx", false, &[], &[], 0), recipe("ba", false, &[], &[], 5)];
  let suggestion = justfile.suggest_recipe("b").unwrap();
  assert_eq!(suggestion.name, "ba");
  assert_eq!(suggestion.target, None);
}

#[test]
fn public_recipes_sorted_by_name_whatever_order_they_are_held_in() {
  let mut justfile = justfile();
  justfile.recipes = vec![
    recipe("zed", false, &[], &[], 1),
    recipe("alpha", false, &[], &[], 9),
    recipe("mid", false, &[], &[], 5),
  ];
  assert_eq!(names(&justfile.public_recipes(false)), vec!["alpha", "mid", "zed"]);
  assert_eq!(names(&justfile.public_recipes(true)), vec!["zed", "mid", "alpha"]);
}
