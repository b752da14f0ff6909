use just::glob::{contains_asterisk, has_glob_pattern, match_pattern, match_with_wildcards, select_glob_matches};
use std::path::Path;

fn path_bytes(path: &str) -> &[u8] {
  Path::new(path).as_os_str().as_encoded_bytes()
}

#[test]
fn test_has_glob_pattern() {
  assert!(has_glob_pattern(path_bytes("*.just")));
  assert!(has_glob_pattern(path_bytes(".just/*.justfile")));
  assert!(has_glob_pattern(path_bytes("foo-*.just")));
  assert!(!has_glob_pattern(path_bytes("foo.just")));
  assert!(!has_glob_pattern(path_bytes(".just/foo.just")));
}

#[test]
fn test_match_with_wildcards_bytes() {
  // Basic wildcard matching
  assert!(match_with_wildcards(b"foo.just", b"*.just", b'*'));
  assert!(match_with_wildcards(b"bar.just", b"*.just", b'*'));
  assert!(!match_with_wildcards(b"foo.justfile", b"*.just", b'*'));

  // Wildcard at start
  assert!(match_with_wildcards(b"test.just", b"*st.just", b'*'));
  assert!(match_with_wildcards(b"test.just", b"*est.just", b'*'));

  // Wildcard in middle
  assert!(match_with_wildcards(b"foo-bar.just", b"foo-*.just", b'*'));
  assert!(match_with_wildcards(b"foo-.just", b"foo-*.just", b'*'));

  // Multiple wildcards
  assert!(match_with_wildcards(b"a-b-c.just", b"*-*-*.just", b'*'));
  assert!(match_with_wildcards(b"abc.just", b"*bc.just", b'*'));

  // Wildcard matches empty
  assert!(match_with_wildcards(b"foo", b"foo*", b'*'));
  assert!(match_with_wildcards(b"foo", b"*foo", b'*'));

  // No wildcards (literal match)
  assert!(match_with_wildcards(b"exact", b"exact", b'*'));
  assert!(!match_with_wildcards(b"exact", b"other", b'*'));

  // Edge cases
  assert!(match_with_wildcards(b"", b"*", b'*'));
  assert!(match_with_wildcards(b"anything", b"*", b'*'));
  assert!(!match_with_wildcards(b"foo", b"", b'*'));
}

#[test]
fn test_match_pattern() {
  // Basic matching
  assert!(match_pattern(b"foo.just", b"*.just"));
  assert!(match_pattern(b"bar.justfile", b"*.justfile"));
  assert!(!match_pattern(b"foo.just", b"*.justfile"));

  // Prefix matching
  assert!(match_pattern(b"test-foo.just", b"test-*.just"));

  // No wildcards
  assert!(match_pattern(b"exact.just", b"exact.just"));
  assert!(!match_pattern(b"exact.just", b"other.just"));
}

#[test]
fn test_contains_asterisk() {
  assert!(contains_asterisk(b"*.just"));
  assert!(contains_asterisk(b"foo-*.just"));
  assert!(contains_asterisk(b"*"));
  assert!(!contains_asterisk(b"foo.just"));
  assert!(!contains_asterisk(b""));
}

#[test]
fn test_non_utf8_filenames() {
  // Should match even though the file name isn't valid UTF-8
  let invalid_utf8: &[u8] = &[0xff, 0xfe, b'.', b'j', b'u', b's', b't'];
  assert!(match_pattern(invalid_utf8, b"*.just"));

  // A pattern that isn't valid UTF-8 still holds a wildcard
  let invalid_pattern: &[u8] = &[b'*', 0xff, 0xfe];
  assert!(has_glob_pattern(invalid_pattern));
}

#[test]
fn wildcard_backtracks_past_false_starts() {
  assert!(match_with_wildcards(b"aaab", b"*ab", b'*'));
  assert!(match_with_wildcards(b"abcabd", b"*abd", b'*'));
  assert!(!match_with_wildcards(b"abcabc", b"*abd", b'*'));
  assert!(match_with_wildcards(b"xaybzc", b"x*y*z*", b'*'));
  assert!(!match_with_wildcards(b"xaybz", b"x*y*z?", b'*'));
  assert!(match_with_wildcards(b"", b"***", b'*'));
  assert!(!match_with_wildcards(b"", b"*a*", b'*'));
}

#[test]
fn wildcard_is_a_parameter() {
  assert!(match_with_wildcards(b"foo.just", b"%.just", b'%'));
  assert!(!match_with_wildcards(b"foo.just", b"*.just", b'%'));
}

#[test]
fn select_glob_matches_keeps_order_and_needs_a_wildcard() {
  let names = vec![
    b"b.just".to_vec(),
    b"a.justfile".to_vec(),
    b"a.just".to_vec(),
    b"just".to_vec(),
  ];
  assert_eq!(select_glob_matches(&names, b"*.just"), vec![0, 2]);
  assert_eq!(select_glob_matches(&names, b"a.just"), Vec::<usize>::new());
  assert_eq!(select_glob_matches(&names, b"*"), vec![0, 1, 2, 3]);
}
