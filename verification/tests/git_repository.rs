use just::git_repository::{GitError, GitErrorClass, GitRepositoryManager};

#[test]
fn test_is_git_url() {
  assert!(GitRepositoryManager::is_git_url("https://github.com/user/repo.git"));
  assert!(GitRepositoryManager::is_git_url("git@github.com:user/repo.git"));
  assert!(GitRepositoryManager::is_git_url("git://example.com/repo.git"));
  assert!(!GitRepositoryManager::is_git_url("./local/path"));
  assert!(!GitRepositoryManager::is_git_url("/absolute/path"));
}

#[test]
fn test_parse_git_url() {
  // Test basic URL
  let (url, sha, path) = GitRepositoryManager::parse_git_url("https://github.com/user/repo.git");
  assert_eq!(url, "https://github.com/user/repo.git");
  assert_eq!(sha, None);
  assert_eq!(path, None);

  // Test URL with file path
  let (url, sha, path) =
    GitRepositoryManager::parse_git_url("https://github.com/user/repo.git@path/to/file.just");
  assert_eq!(url, "https://github.com/user/repo.git");
  assert_eq!(sha, None);
  assert_eq!(path, Some("path/to/file.just".to_string()));

  // Test URL with SHA
  let (url, sha, path) = GitRepositoryManager::parse_git_url("https://github.com/user/repo.git#abc123");
  assert_eq!(url, "https://github.com/user/repo.git");
  assert_eq!(sha, Some("abc123".to_string()));
  assert_eq!(path, None);

  // Test URL with SHA and file path
  let (url, sha, path) =
    GitRepositoryManager::parse_git_url("https://github.com/user/repo.git#abc123@path/to/file.just");
  assert_eq!(url, "https://github.com/user/repo.git");
  assert_eq!(sha, Some("abc123".to_string()));
  assert_eq!(path, Some("path/to/file.just".to_string()));
}

#[test]
fn is_git_url_hosts_and_suffixes() {
  assert!(GitRepositoryManager::is_git_url("ssh://host/repo"));
  assert!(GitRepositoryManager::is_git_url("http://example.com/x"));
  assert!(GitRepositoryManager::is_git_url("github.com/user/repo.git"));
  assert!(!GitRepositoryManager::is_git_url("github.com/user/repo"));
  assert!(!GitRepositoryManager::is_git_url("github.com/user/file.just"));
  assert!(GitRepositoryManager::is_git_url("gitlab.com/user/repo.git"));
  assert!(GitRepositoryManager::is_git_url("bitbucket.org/user/repo.git"));
  assert!(!GitRepositoryManager::is_git_url("bitbucket.org/user/repo"));
  assert!(GitRepositoryManager::is_git_url("some/where.git"));
  assert!(!GitRepositoryManager::is_git_url("imports/common.just"));
}

#[test]
fn parse_git_url_keeps_ssh_user() {
  let (url, sha, path) = GitRepositoryManager::parse_git_url("git@github.com:user/repo.git");
  assert_eq!(url, "git@github.com:user/repo.git");
  assert_eq!(sha, None);
  assert_eq!(path, None);

  let (url, sha, path) = GitRepositoryManager::parse_git_url("ssh://git@host/repo@dir/file.just");
  assert_eq!(url, "ssh://git@host/repo");
  assert_eq!(sha, None);
  assert_eq!(path, Some("dir/file.just".to_string()));

  let (url, sha, path) = GitRepositoryManager::parse_git_url("a#b#c@d@e");
  assert_eq!(url, "a");
  assert_eq!(sha, Some("b#c".to_string()));
  assert_eq!(path, Some("d@e".to_string()));
}

#[test]
fn repo_cache_key_is_hex_and_depends_on_sha() {
  let a = GitRepositoryManager::get_repo_cache_key("https://example.com/r.git", None);
  let b = GitRepositoryManager::get_repo_cache_key("https://example.com/r.git", Some("abc"));
  let a2 = GitRepositoryManager::get_repo_cache_key("https://example.com/r.git", None);
  assert_eq!(a, a2);
  assert_ne!(a, b);
  assert!(!a.is_empty());
  assert!(a.chars().all(|c| c.is_ascii_digit() || ('a'..='f').contains(&c)));
}

#[test]
fn categorize_git_errors() {
  let e = GitRepositoryManager::categorize_git_error("u", GitErrorClass::Net, false, "m");
  assert_eq!(e, GitError::GitNetwork { url: "u".into(), message: "m".into() });
  let e = GitRepositoryManager::categorize_git_error("u", GitErrorClass::Ssh, false, "m");
  assert_eq!(e, GitError::GitAuth { url: "u".into(), message: "m".into() });
  let e = GitRepositoryManager::categorize_git_error("u", GitErrorClass::Http, true, "m");
  assert_eq!(e, GitError::GitAuth { url: "u".into(), message: "m".into() });
  let e = GitRepositoryManager::categorize_git_error("u", GitErrorClass::Http, false, "m");
  assert_eq!(e, GitError::GitNetwork { url: "u".into(), message: "m".into() });
  let e = GitRepositoryManager::categorize_git_error("u", GitErrorClass::Other, true, "m");
  assert_eq!(e, GitError::GitRepository { url: "u".into(), message: "m".into() });
}

#[test]
fn default_import_file_prefers_justfile() {
  assert_eq!(GitRepositoryManager::default_import_file(true, true), Some("justfile"));
  assert_eq!(GitRepositoryManager::default_import_file(false, true), Some(".justfile"));
  assert_eq!(GitRepositoryManager::default_import_file(false, false), None);
}

#[test]
fn file_path_follows_the_documented_form() {
  assert_eq!(
    GitRepositoryManager::parse_git_url("https://github.com/user/repo.git@justfile"),
    ("https://github.com/user/repo.git".to_string(), None, Some("justfile".to_string()))
  );
  assert_eq!(
    GitRepositoryManager::parse_git_url("https://user@github.com/org/repo.git"),
    ("https://user@github.com/org/repo.git".to_string(), None, None)
  );
  assert_eq!(
    GitRepositoryManager::parse_git_url("git@github.com:user/repo.git"),
    ("git@github.com:user/repo.git".to_string(), None, None)
  );
  assert_eq!(
    GitRepositoryManager::parse_git_url("git@github.com:user/repo.git@sub/file.just"),
    ("git@github.com:user/repo.git".to_string(), None, Some("sub/file.just".to_string()))
  );
}
