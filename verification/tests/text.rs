use just::count::Count;
use just::enclosure::Enclosure;
use just::keyword::Keyword;
use just::text::{decimal, lower_hex};

fn case(count: Count, expected: &str) {
  assert_eq!(count.to_string(), expected);
}

#[test]
fn count() {
  case(Count::numbered("dog", 0), "0 dogs");
  case(Count::numbered("dog", 1), "1 dog");
  case(Count::numbered("dog", 2), "2 dogs");
  case(Count::numbered_irregular("foot", "feet", 0), "0 feet");
  case(Count::numbered_irregular("foot", "feet", 1), "1 foot");
  case(Count::numbered_irregular("foot", "feet", 2), "2 feet");
  case(Count::unnumbered("dog", 0), "dogs");
  case(Count::unnumbered("dog", 1), "dog");
  case(Count::unnumbered("dog", 2), "dogs");
}

#[test]
fn tick() {
  assert_eq!(Enclosure::tick("foo").to_string(), "`foo`");
}

#[test]
fn keyword_case() {
  assert_eq!(Keyword::X.lexeme(), "x");
  assert_eq!(Keyword::IgnoreComments.lexeme(), "ignore-comments");
}

#[test]
fn keyword_lexemes_round_trip() {
  for keyword in Keyword::all() {
    assert_eq!(Keyword::from_lexeme(keyword.lexeme()), Some(keyword));
    assert!(keyword.eq_str(keyword.lexeme()));
  }
  assert_eq!(Keyword::from_lexeme("set"), Some(Keyword::SetDirective));
  assert_eq!(Keyword::from_lexeme("windows-powershell"), Some(Keyword::WindowsPowershell));
  assert_eq!(Keyword::from_lexeme("Set"), None);
  assert_eq!(Keyword::from_lexeme("ignore_comments"), None);
  assert!(!Keyword::Alias.eq_str("alia"));
}

#[test]
fn numbers() {
  assert_eq!(decimal(0), "0");
  assert_eq!(decimal(1234567890), "1234567890");
  assert_eq!(decimal(usize::MAX), usize::MAX.to_string());
  assert_eq!(lower_hex(0), "0");
  assert_eq!(lower_hex(0xdead_beef), "deadbeef");
  assert_eq!(lower_hex(u64::MAX), "ffffffffffffffff");
}

#[test]
fn count_large_numbers() {
  assert_eq!(Count::numbered("recipe", 1000).to_string(), "1000 recipes");
}

#[test]
fn whitespace_agrees_with_std_for_every_char() {
  for u in 0..=0x10FFFFu32 {
    if let Some(c) = char::from_u32(u) {
      assert_eq!(just::text::char_is_whitespace(c), c.is_whitespace(), "U+{u:04X}");
    }
  }
}
