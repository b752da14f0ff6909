//! Remote imports: recognising Git URLs, splitting them into their parts and
//! naming the cache directory of a clone.
use crate::text::{
    chars_of, contains_char, contains_seq, contains_str, digits, ends_with, find_char, first_index,
    lemma_first_index_unique, lower_hex, occurs_at, occurs_at_exec, opt_view, starts_with,
    string_from_chars,
};
use std::collections::hash_map::DefaultHasher;
use std::hash::Hasher;
use vstd::std_specs::hash::DefaultHasherAdditionalSpecFns;
use std::path::PathBuf;
use vstd::prelude::*;

verus! {

#[verifier::external_type_specification]
#[verifier::external_body]
pub struct ExPathBuf(PathBuf);

/// Manages Git repository operations for remote imports.
pub struct GitRepositoryManager {
    cache_dir: PathBuf,
}

/// The kind of failure that libgit2 reports.
#[derive(Clone, Copy, Debug, PartialEq, Eq)]
pub enum GitErrorClass {
    /// A network failure.
    Net,
    /// An SSH failure.
    Ssh,
    /// An HTTP failure.
    Http,
    /// Any other failure.
    Other,
}

/// A failed Git operation, as reported to the user.
#[derive(Debug, PartialEq, Eq)]
pub enum GitError {
    GitNetwork { url: String, message: String },
    GitAuth { url: String, message: String },
    GitRepository { url: String, message: String },
}

/// `path` looks like the URL of a Git repository.
pub open spec fn spec_is_git_url(path: Seq<char>) -> bool {
    ||| "git://"@.is_prefix_of(path)
    ||| "git@"@.is_prefix_of(path)
    ||| "https://"@.is_prefix_of(path)
    ||| "http://"@.is_prefix_of(path)
    ||| "ssh://"@.is_prefix_of(path)
    ||| (contains_seq(path, "github.com"@) && (contains_seq(path, ".git"@) || !path.contains('.')))
    ||| (contains_seq(path, "gitlab.com"@) && (contains_seq(path, ".git"@) || !path.contains('.')))
    ||| (contains_seq(path, "bitbucket.org"@) && (contains_seq(path, ".git"@) || !path.contains(
        '.',
    )))
    ||| ".git"@.is_suffix_of(path)
}

/// The first position from `i` on where `s` holds `c`.
pub open spec fn first_from(s: Seq<char>, c: char, i: int) -> Option<int>
    decreases s.len() - i,
{
    if i < 0 || i >= s.len() {
        None
    } else if s[i] == c {
        Some(i)
    } else {
        first_from(s, c, i + 1)
    }
}

/// The first position from `i` on where `needle` occurs in `s`.
pub open spec fn first_occurrence_from(s: Seq<char>, needle: Seq<char>, i: int) -> Option<int>
    decreases s.len() - i,
{
    if i < 0 || i >= s.len() {
        None
    } else if occurs_at(s, needle, i) {
        Some(i)
    } else {
        first_occurrence_from(s, needle, i + 1)
    }
}

/// Where the path of the repository URL `url` begins: after the host of a
/// `scheme://host/...` URL, after the first `:` of a `user@host:path` one,
/// else at its start. An `@` before it belongs to the user and host.
pub open spec fn repo_path_start(url: Seq<char>) -> int {
    match first_occurrence_from(url, "://"@, 0) {
        Some(p) => match first_from(url, '/', p + 3) {
            Some(q) => q,
            None => url.len() as int,
        },
        None => match first_from(url, ':', 0) {
            Some(c) => c + 1,
            None => 0,
        },
    }
}

/// The parts of a remote import `git_url[#sha][@file_path]`: the repository
/// URL, the commit, and the path of the file inside the repository. After a
/// `#`, the commit runs to the first `@`; without a `#`, the file path
/// follows the first `@` in the path of the URL, an `@` in its user and
/// host part not counting.
pub open spec fn spec_parse_git_url(url: Seq<char>) -> (Seq<char>, Option<Seq<char>>, Option<Seq<char>>) {
    match first_index(url, '#') {
        Some(h) => {
            let base = url.subrange(0, h);
            let remaining = url.subrange(h + 1, url.len() as int);
            match first_index(remaining, '@') {
                Some(a) => (
                    base,
                    Some(remaining.subrange(0, a)),
                    Some(remaining.subrange(a + 1, remaining.len() as int)),
                ),
                None => (base, Some(remaining), None),
            }
        },
        None => match first_from(url, '@', repo_path_start(url)) {
            Some(a) => (url.subrange(0, a), None, Some(url.subrange(a + 1, url.len() as int))),
            None => (url, None, None),
        },
    }
}

/// The first position from `i` on where `s` holds `c`.
fn find_from(s: &[char], c: char, i: usize) -> (r: Option<usize>)
    requires
        i <= s.len(),
    ensures
        match r {
            Some(k) => first_from(s@, c, i as int) == Some(k as int) && k < s.len(),
            None => first_from(s@, c, i as int) is None,
        },
    decreases s.len() - i,
{
    if i >= s.len() {
        None
    } else if s[i] == c {
        Some(i)
    } else {
        find_from(s, c, i + 1)
    }
}

/// The first position from `i` on where `needle` occurs in `s`.
fn find_seq_from(s: &[char], needle: &[char], i: usize) -> (r: Option<usize>)
    requires
        i <= s.len(),
    ensures
        match r {
            Some(k) => first_occurrence_from(s@, needle@, i as int) == Some(k as int) && k < s.len(),
            None => first_occurrence_from(s@, needle@, i as int) is None,
        },
    decreases s.len() - i,
{
    if i >= s.len() {
        None
    } else if occurs_at_exec(s, needle, i) {
        Some(i)
    } else {
        find_seq_from(s, needle, i + 1)
    }
}

/// Where the path of the repository URL `u` begins.
fn path_start(u: &[char]) -> (r: usize)
    ensures
        r == repo_path_start(u@),
        r <= u.len(),
{
    let scheme = chars_of("://");
    match find_seq_from(u, scheme.as_slice(), 0) {
        Some(p) => {
            if u.len() - p < 3 {
                proof {
                    reveal_strlit("://");
                }
                return u.len();
            }
            match find_from(u, '/', p + 3) {
                Some(q) => q,
                None => u.len(),
            }
        },
        None => match find_from(u, ':', 0) {
            Some(c) => c + 1,
            None => 0,
        },
    }
}

/// The writes that feeding the string `s` to a `DefaultHasher` makes
/// (`<str as Hash>::hash`): a function of the string alone.
pub uninterp spec fn str_hash_writes(s: Seq<char>) -> Seq<Seq<u8>>;

/// The writes that the cache key of `git_url` and `sha` hashes: those of the
/// URL, then those of the commit if there is one.
pub open spec fn cache_key_writes(git_url: Seq<char>, sha: Option<Seq<char>>) -> Seq<Seq<u8>> {
    str_hash_writes(git_url) + match sha {
        Some(s) => str_hash_writes(s),
        None => Seq::empty(),
    }
}

/// Feeds `s` to `hasher` (`<str as Hash>::hash`). The writes it makes are
/// named by `str_hash_writes`, a function of the string alone; which bytes
/// they are is not stated.
#[verifier::external_body]
fn hash_str(hasher: &mut DefaultHasher, s: &str)
    ensures
        final(hasher)@ == old(hasher)@ + str_hash_writes(s@),
{
    std::hash::Hash::hash(s, hasher)
}

/// A remote import written as `git_url#sha@file_path` splits back into its
/// URL, commit and file path, when the URL holds no `#` and the commit no
/// `@`.
pub proof fn lemma_parse_git_url_with_sha_and_file(base: Seq<char>, sha: Seq<char>, file: Seq<char>)
    requires
        !base.contains('#'),
        !sha.contains('@'),
    ensures
        spec_parse_git_url(base + seq!['#'] + sha + seq!['@'] + file) == (base, Some(sha), Some(file)),
{
    let url = base + seq!['#'] + sha + seq!['@'] + file;
    let h = base.len() as int;
    assert forall|j: int| 0 <= j < h implies url[j] != '#' by {
        assert(url[j] == base[j]);
    }
    lemma_first_index_unique(url, '#', h);
    let remaining = url.subrange(h + 1, url.len() as int);
    assert(remaining =~= sha + seq!['@'] + file);
    assert forall|j: int| 0 <= j < sha.len() implies remaining[j] != '@' by {
        assert(remaining[j] == sha[j]);
    }
    lemma_first_index_unique(remaining, '@', sha.len() as int);
    assert(url.subrange(0, h) =~= base);
    assert(remaining.subrange(0, sha.len() as int) =~= sha);
    assert(remaining.subrange(sha.len() as int + 1, remaining.len() as int) =~= file);
}

/// A remote import written as `git_url#sha` splits back into its URL and
/// commit, when the URL holds no `#` and the commit no `@`.
pub proof fn lemma_parse_git_url_with_sha(base: Seq<char>, sha: Seq<char>)
    requires
        !base.contains('#'),
        !sha.contains('@'),
    ensures
        spec_parse_git_url(base + seq!['#'] + sha) == (base, Some(sha), None::<Seq<char>>),
{
    let url = base + seq!['#'] + sha;
    let h = base.len() as int;
    assert forall|j: int| 0 <= j < h implies url[j] != '#' by {
        assert(url[j] == base[j]);
    }
    lemma_first_index_unique(url, '#', h);
    let remaining = url.subrange(h + 1, url.len() as int);
    assert(remaining =~= sha);
    assert(url.subrange(0, h) =~= base);
}

impl GitRepositoryManager {
    /// The directory under which clones are kept.
    pub closed spec fn spec_cache_dir(&self) -> PathBuf {
        self.cache_dir
    }

    /// A manager that keeps its clones under `cache_dir`.
    pub fn from_cache_dir(cache_dir: PathBuf) -> (r: Self)
        ensures
            r.spec_cache_dir() == cache_dir,
    {
        GitRepositoryManager { cache_dir }
    }

    /// The directory under which clones are kept.
    pub fn cache_dir(&self) -> (r: &PathBuf)
        ensures
            *r == self.spec_cache_dir(),
    {
        &self.cache_dir
    }

    /// Creates a hash-based directory name for the given URL and commit.
    pub fn get_repo_cache_key(git_url: &str, sha: Option<&str>) -> (r: String)
        ensures
            r@ == digits(
                DefaultHasher::spec_finish(
                    cache_key_writes(
                        git_url@,
                        match sha {
                            Some(s) => Some(s@),
                            None => None,
                        },
                    ),
                ) as nat,
                16,
            ),
    {
        let mut hasher = DefaultHasher::new();
        hash_str(&mut hasher, git_url);
        if let Some(sha) = sha {
            hash_str(&mut hasher, sha);
        }
        assert(hasher@ =~= cache_key_writes(
            git_url@,
            match sha {
                Some(s) => Some(s@),
                None => None,
            },
        ));
        let h = hasher.finish();
        let r = lower_hex(h);
        assert(r@ == digits(h as nat, 16));
        r
    }

    /// Determines if a path looks like a Git repository URL.
    pub fn is_git_url(path: &str) -> (r: bool)
        ensures
            r == spec_is_git_url(path@),
    {
        let p = chars_of(path);
        let p = p.as_slice();
        starts_with(p, "git://") || starts_with(p, "git@") || starts_with(p, "https://")
            || starts_with(p, "http://") || starts_with(p, "ssh://") || (contains_str(p, "github.com")
            && (contains_str(p, ".git") || !contains_char(p, '.'))) || (contains_str(p, "gitlab.com")
            && (contains_str(p, ".git") || !contains_char(p, '.'))) || (contains_str(
            p,
            "bitbucket.org",
        ) && (contains_str(p, ".git") || !contains_char(p, '.'))) || ends_with(p, ".git")
    }

    /// Parses a Git URL into its components: base URL, optional commit and
    /// optional file path. Format: `git_url[#sha][@file_path]` or
    /// `git_url[@file_path]`.
    pub fn parse_git_url(url: &str) -> (r: (String, Option<String>, Option<String>))
        ensures
            (r.0@, opt_view(r.1), opt_view(r.2)) == spec_parse_git_url(url@),
    {
        let chars = chars_of(url);
        let u = chars.as_slice();
        match find_char(u, '#') {
            Some(hash_pos) => {
                let (base, rest) = u.split_at(hash_pos);
                let (_, remaining) = rest.split_at(1);
                assert(remaining@ =~= url@.subrange(hash_pos + 1, url@.len() as int));
                match find_char(remaining, '@') {
                    Some(at_pos) => {
                        let sha = string_from_chars(remaining, 0, at_pos);
                        let file_path = string_from_chars(remaining, at_pos + 1, remaining.len());
                        let base = string_from_chars(base, 0, base.len());
                        (base, Some(sha), Some(file_path))
                    },
                    None => {
                        let sha = string_from_chars(remaining, 0, remaining.len());
                        let base = string_from_chars(base, 0, base.len());
                        (base, Some(sha), None)
                    },
                }
            },
            None => {
                let start = path_start(u);
                match find_from(u, '@', start) {
                    Some(at_pos) => {
                        let before = string_from_chars(u, 0, at_pos);
                        let after = string_from_chars(u, at_pos + 1, u.len());
                        (before, None, Some(after))
                    },
                    None => (string_from_chars(u, 0, u.len()), None, None),
                }
            },
        }
    }

    /// Maps a failure reported by libgit2, given by its class, whether its
    /// code says that authentication failed, and its message, to the error
    /// shown for `url`.
    pub fn categorize_git_error(
        url: &str,
        class: GitErrorClass,
        auth_failed: bool,
        message: &str,
    ) -> (r: GitError)
        ensures
            match r {
                GitError::GitNetwork { url: u, message: m } => {
                    &&& u@ == url@
                    &&& m@ == message@
                    &&& (class == GitErrorClass::Net || (class == GitErrorClass::Http
                        && !auth_failed))
                },
                GitError::GitAuth { url: u, message: m } => {
                    &&& u@ == url@
                    &&& m@ == message@
                    &&& (class == GitErrorClass::Ssh || (class == GitErrorClass::Http
                        && auth_failed))
                },
                GitError::GitRepository { url: u, message: m } => {
                    &&& u@ == url@
                    &&& m@ == message@
                    &&& class == GitErrorClass::Other
                },
            },
    {
        let url = String::from_str(url);
        let message = String::from_str(message);
        match class {
            GitErrorClass::Net => GitError::GitNetwork { url, message },
            GitErrorClass::Ssh => GitError::GitAuth { url, message },
            GitErrorClass::Http => {
                if auth_failed {
                    GitError::GitAuth { url, message }
                } else {
                    GitError::GitNetwork { url, message }
                }
            },
            GitErrorClass::Other => GitError::GitRepository { url, message },
        }
    }

    /// The file that a remote import without an explicit file path refers
    /// to: `justfile` if the clone has one, else `.justfile` if it has that.
    pub fn default_import_file(justfile_exists: bool, dot_justfile_exists: bool) -> (r: Option<
        &'static str,
    >)
        ensures
            r == (if justfile_exists {
                Some("justfile")
            } else if dot_justfile_exists {
                Some(".justfile")
            } else {
                None
            }),
    {
        if justfile_exists {
            Some("justfile")
        } else if dot_justfile_exists {
            Some(".justfile")
        } else {
            None
        }
    }
}

} // verus!
