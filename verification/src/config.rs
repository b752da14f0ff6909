//! What the command line asks for: module paths, variable overrides and
//! where to look for the recipe file.
use crate::invocation_parser::{arg_views, spec_module_path, split_from, ModulePath};
use crate::text::{
    append_str, char_is_whitespace, chars_of, contains_char, is_whitespace, push_char, str_equal,
    string_of, string_views,
};
use std::path::PathBuf;
use vstd::prelude::*;

verus! {

/// An error in the command line.
#[derive(Debug, PartialEq, Eq)]
pub enum ConfigError {
    /// Something that should not happen did.
    Internal { message: String },
    /// `path` does not spell a module path.
    ModulePath { path: Vec<String> },
    /// `path` does not spell the path of a variable to override.
    OverridePath { path: String },
    /// A path-prefixed recipe was given together with `--justfile` or
    /// `--working-directory`.
    SearchDirConflict,
    /// `subcommand` was given `arguments` that it does not take.
    SubcommandArguments { subcommand: String, arguments: Vec<String> },
    /// `subcommand` was given overrides, which it does not take.
    SubcommandOverrides { subcommand: String, overrides: Vec<Override> },
    /// `subcommand` was given overrides and arguments, which it does not
    /// take.
    SubcommandOverridesAndArguments {
        subcommand: String,
        overrides: Vec<Override>,
        arguments: Vec<String>,
    },
}

/// A command-line error, as plain values.
pub enum ConfigErrorView {
    Internal { message: Seq<char> },
    ModulePath { path: Seq<Seq<char>> },
    OverridePath { path: Seq<char> },
    SearchDirConflict,
    SubcommandArguments { subcommand: Seq<char>, arguments: Seq<Seq<char>> },
    SubcommandOverrides {
        subcommand: Seq<char>,
        overrides: Map<(Seq<Seq<char>>, Seq<char>), Seq<char>>,
    },
    SubcommandOverridesAndArguments {
        subcommand: Seq<char>,
        overrides: Map<(Seq<Seq<char>>, Seq<char>), Seq<char>>,
        arguments: Seq<Seq<char>>,
    },
}

/// `e` as plain values.
pub open spec fn config_error_view(e: ConfigError) -> ConfigErrorView {
    match e {
        ConfigError::Internal { message } => ConfigErrorView::Internal { message: message@ },
        ConfigError::ModulePath { path } => ConfigErrorView::ModulePath { path: string_views(path@) },
        ConfigError::OverridePath { path } => ConfigErrorView::OverridePath { path: path@ },
        ConfigError::SearchDirConflict => ConfigErrorView::SearchDirConflict,
        ConfigError::SubcommandArguments { subcommand, arguments } =>
            ConfigErrorView::SubcommandArguments {
                subcommand: subcommand@,
                arguments: string_views(arguments@),
            },
        ConfigError::SubcommandOverrides { subcommand, overrides } =>
            ConfigErrorView::SubcommandOverrides {
                subcommand: subcommand@,
                overrides: overrides_map(overrides@),
            },
        ConfigError::SubcommandOverridesAndArguments { subcommand, overrides, arguments } =>
            ConfigErrorView::SubcommandOverridesAndArguments {
                subcommand: subcommand@,
                overrides: overrides_map(overrides@),
                arguments: string_views(arguments@),
            },
    }
}

impl ConfigError {
    /// An internal error with `message`.
    pub fn internal(message: &str) -> (r: Self)
        ensures
            config_error_view(r) == (ConfigErrorView::Internal { message: message@ }),
    {
        ConfigError::Internal { message: string_of(message) }
    }
}

/// The words of `s[j..]`, where `cur` is the part of a word read so far:
/// the maximal runs of characters that are not whitespace.
pub open spec fn words_from(s: Seq<char>, j: int, cur: Seq<char>) -> Seq<Seq<char>>
    decreases s.len() - j,
{
    if j < 0 || j >= s.len() {
        if cur.len() > 0 {
            seq![cur]
        } else {
            Seq::empty()
        }
    } else if is_whitespace(s[j]) {
        (if cur.len() > 0 {
            seq![cur]
        } else {
            Seq::empty()
        }) + words_from(s, j + 1, Seq::empty())
    } else {
        words_from(s, j + 1, cur.push(s[j]))
    }
}

/// The words of `s`, as `str::split_whitespace` gives them.
pub open spec fn spec_split_whitespace(s: Seq<char>) -> Seq<Seq<char>> {
    words_from(s, 0, Seq::empty())
}

/// The words of `s`.
pub fn split_whitespace(s: &str) -> (r: Vec<String>)
    ensures
        string_views(r@) == spec_split_whitespace(s@),
{
    let chars = chars_of(s);
    let mut words: Vec<String> = Vec::new();
    let mut cur = String::new();
    let mut j: usize = 0;
    while j < chars.len()
        invariant
            chars@ == s@,
            j <= chars.len(),
            spec_split_whitespace(s@) == string_views(words@) + words_from(s@, j as int, cur@),
        decreases chars.len() - j,
    {
        if char_is_whitespace(chars[j]) {
            let ghost w0 = string_views(words@);
            let ghost c0 = cur@;
            assert(words_from(s@, j as int, c0) == (if c0.len() > 0 {
                seq![c0]
            } else {
                Seq::empty()
            }) + words_from(s@, j + 1, Seq::empty()));
            if cur.unicode_len() > 0 {
                let ghost before = words@;
                let piece = cur;
                cur = String::new();
                words.push(piece);
                proof {
                    assert(string_views(words@) =~= string_views(before) + seq![piece@]);
                }
            }
            proof {
                assert(cur@ =~= Seq::<char>::empty());
                assert(string_views(words@) =~= w0 + (if c0.len() > 0 {
                    seq![c0]
                } else {
                    Seq::empty()
                }));
            }
        } else {
            push_char(&mut cur, chars[j]);
        }
        j += 1;
    }
    let ghost last = cur@;
    if cur.unicode_len() > 0 {
        let ghost before = words@;
        words.push(cur);
        proof {
            assert(string_views(words@) =~= string_views(before) + seq![last]);
        }
    }
    proof {
        assert(string_views(words@) =~= spec_split_whitespace(s@));
    }
    words
}

/// A copy of `items`.
fn copy_strings(items: &Vec<String>) -> (r: Vec<String>)
    ensures
        string_views(r@) == string_views(items@),
{
    let mut r: Vec<String> = Vec::new();
    let mut i: usize = 0;
    while i < items.len()
        invariant
            i <= items.len(),
            string_views(r@) == string_views(items@).take(i as int),
        decreases items.len() - i,
    {
        let ghost before = r@;
        r.push(string_of(items[i].as_str()));
        proof {
            assert(string_views(r@) =~= string_views(before).push(items@[i as int]@));
            assert(string_views(items@).take(i + 1) =~= string_views(items@).take(i as int).push(
                items@[i as int]@,
            ));
        }
        i += 1;
    }
    assert(string_views(items@).take(i as int) =~= string_views(items@));
    r
}

/// Borrowed views of `items`.
fn borrow_strings(items: &Vec<String>) -> (r: Vec<&str>)
    ensures
        arg_views(r@) == string_views(items@),
{
    let mut r: Vec<&str> = Vec::new();
    let mut i: usize = 0;
    while i < items.len()
        invariant
            i <= items.len(),
            arg_views(r@) == string_views(items@).take(i as int),
        decreases items.len() - i,
    {
        let ghost before = r@;
        r.push(items[i].as_str());
        proof {
            assert(arg_views(r@) =~= arg_views(before).push(items@[i as int]@));
            assert(string_views(items@).take(i + 1) =~= string_views(items@).take(i as int).push(
                items@[i as int]@,
            ));
        }
        i += 1;
    }
    assert(string_views(items@).take(i as int) =~= string_views(items@));
    r
}

/// The arguments that name a module path: a single argument with a space
/// in it is cut into its words.
pub open spec fn modulepath_arguments(values: Seq<Seq<char>>) -> Seq<Seq<char>> {
    if values.len() == 1 && values[0].contains(' ') {
        spec_split_whitespace(values[0])
    } else {
        values
    }
}

/// The module path that the arguments `values` name.
pub fn parse_modulepath(values: &Vec<String>) -> (r: Result<ModulePath, ConfigError>)
    ensures
        match spec_module_path(modulepath_arguments(string_views(values@))) {
            Some(c) => r matches Ok(m) && string_views(m.path@) == c,
            None => r matches Err(e) && config_error_view(e) == (ConfigErrorView::ModulePath {
                path: string_views(values@),
            }),
        },
{
    let words = if values.len() == 1 && contains_char(chars_of(values[0].as_str()).as_slice(), ' ') {
        split_whitespace(values[0].as_str())
    } else {
        copy_strings(values)
    };
    let path = borrow_strings(&words);
    match ModulePath::try_from(path.as_slice()) {
        Some(m) => Ok(m),
        None => Err(ConfigError::ModulePath { path: copy_strings(values) }),
    }
}

proof fn lemma_split_from_nonempty(s: Seq<char>, j: int, cur: Seq<char>)
    ensures
        split_from(s, j, cur).len() >= 1,
    decreases s.len() - j,
{
    if 0 <= j < s.len() {
        if s[j] == ':' && j + 1 < s.len() && s[j + 1] == ':' {
            lemma_split_from_nonempty(s, j + 2, Seq::empty());
        } else {
            lemma_split_from_nonempty(s, j + 1, cur.push(s[j]));
        }
    }
}

/// The module path and name of the variable that `path` overrides: its
/// `::`-separated components, the last of them the name.
pub fn parse_override(path: &str) -> (r: Result<(ModulePath, String), ConfigError>)
    ensures
        match spec_module_path(seq![path@]) {
            Some(c) => c.len() >= 1 && (r matches Ok((m, name)) && string_views(m.path@)
                == c.drop_last() && name@ == c.last()),
            None => r matches Err(e) && config_error_view(e) == (ConfigErrorView::OverridePath {
                path: path@,
            }),
        },
{
    let args = vec![path];
    proof {
        assert(arg_views(args@) =~= seq![path@]);
        lemma_split_from_nonempty(path@, 0, Seq::empty());
    }
    match ModulePath::try_from(args.as_slice()) {
        Some(m) => {
            let mut m = m;
            let ghost all = m.path@;
            let name = m.path.pop().unwrap();
            proof {
                assert(string_views(m.path@) =~= string_views(all).drop_last());
            }
            Ok((m, name))
        },
        None => Err(ConfigError::OverridePath { path: string_of(path) }),
    }
}

/// Where to look for the recipe file.
#[derive(Debug, PartialEq, Eq)]
pub enum SearchConfig {
    /// Search upward from the directory just was invoked in.
    FromInvocationDirectory,
    /// Search upward from `search_directory`.
    FromSearchDirectory { search_directory: PathBuf },
    /// Use the user's global recipe file.
    GlobalJustfile,
    /// Use `justfile`, run in its directory.
    WithJustfile { justfile: PathBuf },
    /// Use `justfile`, run in `working_directory`.
    WithJustfileAndWorkingDirectory { justfile: PathBuf, working_directory: PathBuf },
}

/// Where to look for the recipe file, given `--global-justfile`,
/// `--justfile`, `--working-directory` and the directory that prefixes the
/// recipe arguments, if one does.
pub fn search_config(
    global_justfile: bool,
    justfile: Option<PathBuf>,
    working_directory: Option<PathBuf>,
    search_directory: Option<PathBuf>,
) -> (r: Result<SearchConfig, ConfigError>)
    ensures
        global_justfile ==> r == Ok::<SearchConfig, ConfigError>(SearchConfig::GlobalJustfile),
        !global_justfile ==> match search_directory {
            Some(d) => if justfile is Some || working_directory is Some {
                r == Err::<SearchConfig, ConfigError>(ConfigError::SearchDirConflict)
            } else {
                r == Ok::<SearchConfig, ConfigError>(
                    SearchConfig::FromSearchDirectory { search_directory: d },
                )
            },
            None => match (justfile, working_directory) {
                (None, None) => r == Ok::<SearchConfig, ConfigError>(
                    SearchConfig::FromInvocationDirectory,
                ),
                (Some(j), None) => r == Ok::<SearchConfig, ConfigError>(
                    SearchConfig::WithJustfile { justfile: j },
                ),
                (Some(j), Some(w)) => r == Ok::<SearchConfig, ConfigError>(
                    SearchConfig::WithJustfileAndWorkingDirectory { justfile: j, working_directory: w },
                ),
                (None, Some(_)) => r matches Err(e) && config_error_view(e) == (
                ConfigErrorView::Internal { message: "--working-directory set without --justfile"@ }),
            },
        },
{
    if global_justfile {
        return Ok(SearchConfig::GlobalJustfile);
    }
    match search_directory {
        Some(search_directory) => {
            if justfile.is_some() || working_directory.is_some() {
                return Err(ConfigError::SearchDirConflict);
            }
            Ok(SearchConfig::FromSearchDirectory { search_directory })
        },
        None => match (justfile, working_directory) {
            (None, None) => Ok(SearchConfig::FromInvocationDirectory),
            (Some(justfile), None) => Ok(SearchConfig::WithJustfile { justfile }),
            (Some(justfile), Some(working_directory)) => Ok(
                SearchConfig::WithJustfileAndWorkingDirectory { justfile, working_directory },
            ),
            (None, Some(_)) => Err(ConfigError::internal("--working-directory set without --justfile")),
        },
    }
}

/// A value given on the command line for the variable `name` of the
/// module at `path`.
#[derive(Debug, PartialEq, Eq)]
pub struct Override {
    pub path: ModulePath,
    pub name: String,
    pub value: String,
}

/// The variable an override is for: the module path and the name.
pub open spec fn override_key(o: Override) -> (Seq<Seq<char>>, Seq<char>) {
    (string_views(o.path.path@), o.name@)
}

/// The overrides `os` as a map from the variable to its value, a later
/// override of a variable taking the place of an earlier one.
pub open spec fn overrides_map(os: Seq<Override>) -> Map<(Seq<Seq<char>>, Seq<char>), Seq<char>>
    decreases os.len(),
{
    if os.len() == 0 {
        Map::empty()
    } else {
        overrides_map(os.drop_last()).insert(override_key(os.last()), os.last().value@)
    }
}

/// No two of `os` are for the same variable.
pub open spec fn keys_unique(os: Seq<Override>) -> bool {
    forall|i: int, j: int|
        0 <= i < j < os.len() ==> override_key(#[trigger] os[i]) != override_key(#[trigger] os[j])
}

/// The overrides given by `--set` with the arguments `values[i..]`, taken in
/// pairs of path and value, added to `acc`.
pub open spec fn spec_set_overrides(
    values: Seq<Seq<char>>,
    i: int,
    acc: Map<(Seq<Seq<char>>, Seq<char>), Seq<char>>,
) -> Result<Map<(Seq<Seq<char>>, Seq<char>), Seq<char>>, ConfigErrorView>
    decreases values.len() - i,
{
    if i < 0 || i >= values.len() {
        Ok(acc)
    } else {
        match spec_module_path(seq![values[i]]) {
            None => Err(ConfigErrorView::OverridePath { path: values[i] }),
            Some(c) => if i + 1 < values.len() {
                spec_set_overrides(values, i + 2, acc.insert((c.drop_last(), c.last()), values[i + 1]))
            } else {
                Err(
                    ConfigErrorView::Internal {
                        message: "--set for `"@ + values[i] + "` did not have value"@,
                    },
                )
            },
        }
    }
}

proof fn lemma_overrides_map_absent(os: Seq<Override>, key: (Seq<Seq<char>>, Seq<char>))
    requires
        forall|j: int| 0 <= j < os.len() ==> override_key(#[trigger] os[j]) != key,
    ensures
        !overrides_map(os).contains_key(key),
    decreases os.len(),
{
    if os.len() > 0 {
        lemma_overrides_map_absent(os.drop_last(), key);
    }
}

proof fn lemma_overrides_map_update(os: Seq<Override>, i: int, o: Override)
    requires
        0 <= i < os.len(),
        override_key(os[i]) == override_key(o),
        forall|j: int| i < j < os.len() ==> override_key(#[trigger] os[j]) != override_key(o),
    ensures
        overrides_map(os.update(i, o)) == overrides_map(os).insert(override_key(o), o.value@),
    decreases os.len(),
{
    let updated = os.update(i, o);
    if i == os.len() - 1 {
        assert(updated.drop_last() =~= os.drop_last());
        assert(overrides_map(updated) =~= overrides_map(os).insert(override_key(o), o.value@));
    } else {
        let front = os.drop_last();
        lemma_overrides_map_update(front, i, o);
        assert(updated.drop_last() =~= front.update(i, o));
        assert(override_key(os.last()) != override_key(o));
        assert(overrides_map(updated) =~= overrides_map(os).insert(override_key(o), o.value@));
    }
}

/// Whether `a` and `b` hold the same strings.
fn same_strings(a: &Vec<String>, b: &Vec<String>) -> (r: bool)
    ensures
        r == (string_views(a@) == string_views(b@)),
{
    if a.len() != b.len() {
        proof {
            if string_views(a@) == string_views(b@) {
                assert(string_views(a@).len() == a@.len());
            }
        }
        return false;
    }
    let mut i: usize = 0;
    while i < a.len()
        invariant
            a.len() == b.len(),
            i <= a.len(),
            forall|j: int| 0 <= j < i ==> #[trigger] a@[j]@ == b@[j]@,
        decreases a.len() - i,
    {
        if !str_equal(a[i].as_str(), b[i].as_str()) {
            proof {
                assert(string_views(a@)[i as int] != string_views(b@)[i as int]);
            }
            return false;
        }
        i += 1;
    }
    assert(string_views(a@) =~= string_views(b@));
    true
}

/// Sets the override of the variable of `o` to the value of `o`.
fn insert_override(os: &mut Vec<Override>, o: Override)
    requires
        keys_unique(old(os)@),
    ensures
        keys_unique(final(os)@),
        overrides_map(final(os)@) == overrides_map(old(os)@).insert(override_key(o), o.value@),
{
    let mut k: usize = 0;
    while k < os.len()
        invariant
            k <= os.len(),
            os@ == old(os)@,
            keys_unique(os@),
            forall|j: int| 0 <= j < k ==> override_key(#[trigger] os@[j]) != override_key(o),
        decreases os.len() - k,
    {
        if same_strings(&os[k].path.path, &o.path.path) && str_equal(
            os[k].name.as_str(),
            o.name.as_str(),
        ) {
            proof {
                assert(override_key(os@[k as int]) == override_key(o));
                lemma_overrides_map_update(os@, k as int, o);
            }
            let ghost before = os@;
            let ghost x = o;
            os.set(k, o);
            proof {
                assert(os@ =~= before.update(k as int, x));
                assert forall|i: int, j: int| 0 <= i < j < os@.len() implies override_key(
                    #[trigger] os@[i],
                ) != override_key(#[trigger] os@[j]) by {
                    assert(override_key(os@[i]) == override_key(before[i]) || i == k);
                    assert(override_key(os@[j]) == override_key(before[j]) || j == k);
                }
            }
            return;
        }
        k += 1;
    }
    proof {
        lemma_overrides_map_absent(os@, override_key(o));
    }
    let ghost before = os@;
    let ghost x = o;
    os.push(o);
    proof {
        assert(os@.drop_last() =~= before);
        assert(os@.last() == x);
    }
}

/// The overrides that `--set` gives with the arguments `values`, taken in
/// pairs of a variable's path and its value.
pub fn parse_set_overrides(values: &Vec<String>) -> (r: Result<Vec<Override>, ConfigError>)
    ensures
        match spec_set_overrides(string_views(values@), 0, Map::empty()) {
            Ok(m) => r matches Ok(os) && overrides_map(os@) == m && keys_unique(os@),
            Err(ev) => r matches Err(e) && config_error_view(e) == ev,
        },
{
    let ghost views = string_views(values@);
    let mut overrides: Vec<Override> = Vec::new();
    let mut i: usize = 0;
    while i < values.len()
        invariant
            views == string_views(values@),
            i <= values.len(),
            keys_unique(overrides@),
            spec_set_overrides(views, 0, Map::empty()) == spec_set_overrides(
                views,
                i as int,
                overrides_map(overrides@),
            ),
        decreases values.len() - i,
    {
        let path = values[i].as_str();
        let parsed = parse_override(path);
        match parsed {
            Err(e) => {
                return Err(e);
            },
            Ok((components_path, name)) => {
                if i + 1 >= values.len() {
                    let mut message = string_of("--set for `");
                    append_str(&mut message, path);
                    append_str(&mut message, "` did not have value");
                    return Err(ConfigError::Internal { message });
                }
                let o = Override { path: components_path, name, value: string_of(values[i + 1].as_str()) };
                insert_override(&mut overrides, o);
                i += 2;
            },
        }
    }
    Ok(overrides)
}

/// What some `name=value` pairs hold, as plain values.
pub open spec fn pair_views(pairs: Seq<(String, String)>) -> Seq<(Seq<char>, Seq<char>)> {
    pairs.map_values(|p: (String, String)| (p.0@, p.1@))
}

/// The overrides that the positional `path=value` arguments `pairs[i..]`
/// give, added to `acc`.
pub open spec fn spec_positional_overrides(
    pairs: Seq<(Seq<char>, Seq<char>)>,
    i: int,
    acc: Map<(Seq<Seq<char>>, Seq<char>), Seq<char>>,
) -> Result<Map<(Seq<Seq<char>>, Seq<char>), Seq<char>>, ConfigErrorView>
    decreases pairs.len() - i,
{
    if i < 0 || i >= pairs.len() {
        Ok(acc)
    } else {
        match spec_module_path(seq![pairs[i].0]) {
            None => Err(ConfigErrorView::OverridePath { path: pairs[i].0 }),
            Some(c) => spec_positional_overrides(
                pairs,
                i + 1,
                acc.insert((c.drop_last(), c.last()), pairs[i].1),
            ),
        }
    }
}

/// All the overrides of a command line: those of `--set` with the
/// arguments `set`, then those of the positional `path=value` arguments
/// `positional`, a later value for a variable taking the place of an
/// earlier one.
pub fn command_line_overrides(set: &Vec<String>, positional: &Vec<(String, String)>) -> (r: Result<
    Vec<Override>,
    ConfigError,
>)
    ensures
        match spec_set_overrides(string_views(set@), 0, Map::empty()) {
            Err(ev) => r matches Err(e) && config_error_view(e) == ev,
            Ok(m) => match spec_positional_overrides(pair_views(positional@), 0, m) {
                Ok(all) => r matches Ok(os) && overrides_map(os@) == all && keys_unique(os@),
                Err(ev) => r matches Err(e) && config_error_view(e) == ev,
            },
        },
{
    let mut overrides = parse_set_overrides(set)?;
    let ghost views = pair_views(positional@);
    let ghost from_set = overrides_map(overrides@);
    let mut i: usize = 0;
    while i < positional.len()
        invariant
            views == pair_views(positional@),
            spec_set_overrides(string_views(set@), 0, Map::empty()) == Ok::<
                Map<(Seq<Seq<char>>, Seq<char>), Seq<char>>,
                ConfigErrorView,
            >(from_set),
            i <= positional.len(),
            keys_unique(overrides@),
            spec_positional_overrides(views, 0, from_set) == spec_positional_overrides(
                views,
                i as int,
                overrides_map(overrides@),
            ),
        decreases positional.len() - i,
    {
        let (path, value) = &positional[i];
        assert(views[i as int] == (path@, value@));
        match parse_override(path.as_str()) {
            Err(e) => {
                assert(spec_module_path(seq![views[i as int].0]) is None);
                return Err(e);
            },
            Ok((components_path, name)) => {
                let o = Override { path: components_path, name, value: string_of(value.as_str()) };
                insert_override(&mut overrides, o);
                i += 1;
            },
        }
    }
    Ok(overrides)
}

/// Refuses overrides or arguments given to a subcommand that takes no
/// arguments; `subcommand` is its name.
pub fn check_subcommand_inputs(
    takes_arguments: bool,
    subcommand: &str,
    overrides: Vec<Override>,
    arguments: Vec<String>,
) -> (r: Result<(), ConfigError>)
    ensures
        if takes_arguments || (overrides@.len() == 0 && arguments@.len() == 0) {
            r is Ok
        } else {
            r matches Err(e) && config_error_view(e) == if arguments@.len() == 0 {
                ConfigErrorView::SubcommandOverrides {
                    subcommand: subcommand@,
                    overrides: overrides_map(overrides@),
                }
            } else if overrides@.len() == 0 {
                ConfigErrorView::SubcommandArguments {
                    subcommand: subcommand@,
                    arguments: string_views(arguments@),
                }
            } else {
                ConfigErrorView::SubcommandOverridesAndArguments {
                    subcommand: subcommand@,
                    overrides: overrides_map(overrides@),
                    arguments: string_views(arguments@),
                }
            }
        },
{
    if takes_arguments {
        return Ok(());
    }
    let has_overrides = overrides.len() > 0;
    let has_arguments = arguments.len() > 0;
    if has_overrides && has_arguments {
        Err(
            ConfigError::SubcommandOverridesAndArguments {
                subcommand: string_of(subcommand),
                overrides,
                arguments,
            },
        )
    } else if has_overrides {
        Err(ConfigError::SubcommandOverrides { subcommand: string_of(subcommand), overrides })
    } else if has_arguments {
        Err(ConfigError::SubcommandArguments { subcommand: string_of(subcommand), arguments })
    } else {
        Ok(())
    }
}

/// A shell that completion scripts are written for.
#[derive(Clone, Copy, Debug, PartialEq, Eq, Structural)]
pub enum Shell {
    Bash,
    Elvish,
    Fish,
    Nushell,
    Powershell,
    Zsh,
}

/// The form of a dumped recipe file.
#[derive(Clone, Copy, Debug, PartialEq, Eq, Structural)]
pub enum DumpFormat {
    Json,
    Just,
}

/// The form of evaluated variables.
#[derive(Clone, Copy, Debug, PartialEq, Eq, Structural)]
pub enum EvaluateFormat {
    Just,
    Shell,
}

/// The subcommand options of the command line, as given.
#[derive(Debug, Default, PartialEq, Eq)]
pub struct SubcommandFlags {
    pub changelog: bool,
    pub choose: bool,
    /// `--command`, with the binary and its arguments
    pub command: Option<Vec<String>>,
    pub completions: Option<Shell>,
    pub dump: bool,
    pub edit: bool,
    pub evaluate: bool,
    pub fmt: bool,
    pub groups: bool,
    pub init: bool,
    pub json: bool,
    pub list: Option<Vec<String>>,
    pub man: bool,
    /// `--request`, with its JSON text
    pub request: Option<String>,
    pub show: Option<Vec<String>>,
    pub summary: bool,
    pub usage: Option<Vec<String>>,
    pub variables: bool,
}

/// What just was asked to do.
#[derive(Debug, PartialEq, Eq)]
pub enum Subcommand {
    Changelog,
    Choose { chooser: Option<String> },
    Command { binary: String, arguments: Vec<String> },
    Completions { shell: Shell },
    Dump { format: DumpFormat },
    Edit,
    Evaluate { format: EvaluateFormat, path: ModulePath },
    Format,
    Groups,
    Init,
    List { path: ModulePath },
    Man,
    /// A request in JSON, to be read by the caller
    Request { request: String },
    Run { arguments: Vec<String> },
    Show { path: ModulePath },
    Summary,
    Usage { path: ModulePath },
    Variables,
}

/// What just was asked to do, as plain values.
pub enum SubcommandView {
    Changelog,
    Choose { chooser: Option<Seq<char>> },
    Command { binary: Seq<char>, arguments: Seq<Seq<char>> },
    Completions { shell: Shell },
    Dump { format: DumpFormat },
    Edit,
    Evaluate { format: EvaluateFormat, path: Seq<Seq<char>> },
    Format,
    Groups,
    Init,
    List { path: Seq<Seq<char>> },
    Man,
    Request { request: Seq<char> },
    Run { arguments: Seq<Seq<char>> },
    Show { path: Seq<Seq<char>> },
    Summary,
    Usage { path: Seq<Seq<char>> },
    Variables,
}

/// `s` as plain values.
pub open spec fn subcommand_view(s: Subcommand) -> SubcommandView {
    match s {
        Subcommand::Changelog => SubcommandView::Changelog,
        Subcommand::Choose { chooser } => SubcommandView::Choose {
            chooser: match chooser {
                Some(c) => Some(c@),
                None => None,
            },
        },
        Subcommand::Command { binary, arguments } => SubcommandView::Command {
            binary: binary@,
            arguments: string_views(arguments@),
        },
        Subcommand::Completions { shell } => SubcommandView::Completions { shell },
        Subcommand::Dump { format } => SubcommandView::Dump { format },
        Subcommand::Edit => SubcommandView::Edit,
        Subcommand::Evaluate { format, path } => SubcommandView::Evaluate {
            format,
            path: string_views(path.path@),
        },
        Subcommand::Format => SubcommandView::Format,
        Subcommand::Groups => SubcommandView::Groups,
        Subcommand::Init => SubcommandView::Init,
        Subcommand::List { path } => SubcommandView::List { path: string_views(path.path@) },
        Subcommand::Man => SubcommandView::Man,
        Subcommand::Request { request } => SubcommandView::Request { request: request@ },
        Subcommand::Run { arguments } => SubcommandView::Run { arguments: string_views(arguments@) },
        Subcommand::Show { path } => SubcommandView::Show { path: string_views(path.path@) },
        Subcommand::Summary => SubcommandView::Summary,
        Subcommand::Usage { path } => SubcommandView::Usage { path: string_views(path.path@) },
        Subcommand::Variables => SubcommandView::Variables,
    }
}

/// The module path that `values` name, or the error for them.
pub open spec fn spec_parse_modulepath(values: Seq<Seq<char>>) -> Result<Seq<Seq<char>>, ConfigErrorView> {
    match spec_module_path(modulepath_arguments(values)) {
        Some(c) => Ok(c),
        None => Err(ConfigErrorView::ModulePath { path: values }),
    }
}

/// `subcommand` with the module path that `values` name.
pub open spec fn with_path(
    values: Seq<Seq<char>>,
    subcommand: spec_fn(Seq<Seq<char>>) -> SubcommandView,
) -> Result<SubcommandView, ConfigErrorView> {
    match spec_parse_modulepath(values) {
        Ok(p) => Ok(subcommand(p)),
        Err(e) => Err(e),
    }
}

/// The subcommand that the options `flags` ask for: the first of them that
/// is given, in the order below, else running the recipes that the
/// `positional` arguments name.
pub open spec fn spec_subcommand(
    flags: SubcommandFlags,
    chooser: Option<Seq<char>>,
    dump_format: DumpFormat,
    evaluate_format: EvaluateFormat,
    positional: Seq<Seq<char>>,
) -> Result<SubcommandView, ConfigErrorView> {
    if flags.changelog {
        Ok(SubcommandView::Changelog)
    } else if flags.choose {
        Ok(SubcommandView::Choose { chooser })
    } else if flags.command is Some {
        let command = string_views(flags.command->0@);
        Ok(SubcommandView::Command { binary: command[0], arguments: command.drop_first() })
    } else if flags.completions is Some {
        Ok(SubcommandView::Completions { shell: flags.completions->0 })
    } else if flags.dump {
        Ok(SubcommandView::Dump { format: dump_format })
    } else if flags.edit {
        Ok(SubcommandView::Edit)
    } else if flags.evaluate {
        if positional.len() == 0 {
            Ok(SubcommandView::Evaluate { format: evaluate_format, path: Seq::empty() })
        } else if positional.len() == 1 {
            with_path(
                positional,
                |p: Seq<Seq<char>>| SubcommandView::Evaluate { format: evaluate_format, path: p },
            )
        } else {
            Err(
                ConfigErrorView::SubcommandArguments {
                    subcommand: "EVALUATE"@,
                    arguments: positional.drop_first(),
                },
            )
        }
    } else if flags.fmt {
        Ok(SubcommandView::Format)
    } else if flags.groups {
        Ok(SubcommandView::Groups)
    } else if flags.init {
        Ok(SubcommandView::Init)
    } else if flags.json {
        Ok(SubcommandView::Dump { format: DumpFormat::Json })
    } else if flags.list is Some {
        with_path(string_views(flags.list->0@), |p: Seq<Seq<char>>| SubcommandView::List { path: p })
    } else if flags.man {
        Ok(SubcommandView::Man)
    } else if flags.request is Some {
        Ok(SubcommandView::Request { request: flags.request->0@ })
    } else if flags.show is Some {
        with_path(string_views(flags.show->0@), |p: Seq<Seq<char>>| SubcommandView::Show { path: p })
    } else if flags.summary {
        Ok(SubcommandView::Summary)
    } else if flags.usage is Some {
        with_path(string_views(flags.usage->0@), |p: Seq<Seq<char>>| SubcommandView::Usage { path: p })
    } else if flags.variables {
        Ok(SubcommandView::Variables)
    } else {
        Ok(SubcommandView::Run { arguments: positional })
    }
}

/// How many of the options that choose a subcommand `flags` gives.
pub open spec fn subcommand_flag_count(flags: SubcommandFlags) -> nat {
    (if flags.changelog { 1nat } else { 0nat }) + (if flags.choose { 1nat } else { 0nat }) + (
    if flags.command is Some { 1nat } else { 0nat }) + (if flags.completions is Some { 1nat } else { 0nat })
        + (if flags.dump { 1nat } else { 0nat }) + (if flags.edit { 1nat } else { 0nat }) + (
    if flags.evaluate { 1nat } else { 0nat }) + (if flags.fmt { 1nat } else { 0nat }) + (
    if flags.groups { 1nat } else { 0nat }) + (if flags.init { 1nat } else { 0nat }) + (
    if flags.json { 1nat } else { 0nat }) + (if flags.list is Some { 1nat } else { 0nat }) + (
    if flags.man { 1nat } else { 0nat }) + (if flags.request is Some { 1nat } else { 0nat }) + (
    if flags.show is Some { 1nat } else { 0nat }) + (if flags.summary { 1nat } else { 0nat }) + (
    if flags.usage is Some { 1nat } else { 0nat }) + (if flags.variables { 1nat } else { 0nat })
}

/// An option that chooses a subcommand, given alone, chooses the
/// subcommand of its name: `--summary` the summary, `--variables` the
/// variables, `--edit` editing, `--fmt` formatting, `--groups` the groups,
/// `--init` a new recipe file, `--man` the manual, `--changelog` the
/// changelog, `--dump` a dump in the dump format, `--json` a dump as JSON,
/// `--choose` the chooser with the chooser given, `--completions` the
/// completions for its shell and `--request` its request. With none given,
/// the positional arguments are run.
pub proof fn lemma_single_flag_subcommand(
    flags: SubcommandFlags,
    chooser: Option<Seq<char>>,
    dump_format: DumpFormat,
    evaluate_format: EvaluateFormat,
    positional: Seq<Seq<char>>,
)
    ensures
        ({
            let r = spec_subcommand(flags, chooser, dump_format, evaluate_format, positional);
            &&& subcommand_flag_count(flags) == 0 ==> r == Ok::<SubcommandView, ConfigErrorView>(
                SubcommandView::Run { arguments: positional },
            )
            &&& subcommand_flag_count(flags) == 1 ==> {
                &&& flags.summary ==> r == Ok::<SubcommandView, ConfigErrorView>(SubcommandView::Summary)
                &&& flags.variables ==> r == Ok::<SubcommandView, ConfigErrorView>(SubcommandView::Variables)
                &&& flags.edit ==> r == Ok::<SubcommandView, ConfigErrorView>(SubcommandView::Edit)
                &&& flags.fmt ==> r == Ok::<SubcommandView, ConfigErrorView>(SubcommandView::Format)
                &&& flags.groups ==> r == Ok::<SubcommandView, ConfigErrorView>(SubcommandView::Groups)
                &&& flags.init ==> r == Ok::<SubcommandView, ConfigErrorView>(SubcommandView::Init)
                &&& flags.man ==> r == Ok::<SubcommandView, ConfigErrorView>(SubcommandView::Man)
                &&& flags.changelog ==> r == Ok::<SubcommandView, ConfigErrorView>(SubcommandView::Changelog)
                &&& flags.dump ==> r == Ok::<SubcommandView, ConfigErrorView>(
                    SubcommandView::Dump { format: dump_format },
                )
                &&& flags.json ==> r == Ok::<SubcommandView, ConfigErrorView>(
                    SubcommandView::Dump { format: DumpFormat::Json },
                )
                &&& flags.choose ==> r == Ok::<SubcommandView, ConfigErrorView>(
                    SubcommandView::Choose { chooser },
                )
                &&& flags.completions is Some ==> r == Ok::<SubcommandView, ConfigErrorView>(
                    SubcommandView::Completions { shell: flags.completions->0 },
                )
                &&& flags.request is Some ==> r == Ok::<SubcommandView, ConfigErrorView>(
                    SubcommandView::Request { request: flags.request->0@ },
                )
            }
        }),
{
}

/// `r` as plain values.
pub open spec fn subcommand_result_view(r: Result<Subcommand, ConfigError>) -> Result<
    SubcommandView,
    ConfigErrorView,
> {
    match r {
        Ok(s) => Ok(subcommand_view(s)),
        Err(e) => Err(config_error_view(e)),
    }
}

/// The subcommand that the options `flags` ask for, where `chooser`,
/// `dump_format` and `evaluate_format` are the options that go with some
/// of them and `positional` are the positional arguments.
pub fn subcommand(
    flags: &SubcommandFlags,
    chooser: &Option<String>,
    dump_format: DumpFormat,
    evaluate_format: EvaluateFormat,
    positional: &Vec<String>,
) -> (r: Result<Subcommand, ConfigError>)
    requires
        flags.command matches Some(c) ==> c@.len() >= 1,
    ensures
        subcommand_result_view(r) == spec_subcommand(
            *flags,
            match *chooser {
                Some(c) => Some(c@),
                None => None,
            },
            dump_format,
            evaluate_format,
            string_views(positional@),
        ),
{
    let ghost positional_views = string_views(positional@);
    if flags.changelog {
        Ok(Subcommand::Changelog)
    } else if flags.choose {
        let chooser = match chooser {
            Some(c) => Some(string_of(c.as_str())),
            None => None,
        };
        Ok(Subcommand::Choose { chooser })
    } else if let Some(command) = &flags.command {
        let mut arguments = copy_strings(command);
        let ghost all = arguments@;
        let binary = arguments.remove(0);
        proof {
            assert(string_views(arguments@) =~= string_views(all).drop_first());
        }
        Ok(Subcommand::Command { binary, arguments })
    } else if let Some(shell) = flags.completions {
        Ok(Subcommand::Completions { shell })
    } else if flags.dump {
        Ok(Subcommand::Dump { format: dump_format })
    } else if flags.edit {
        Ok(Subcommand::Edit)
    } else if flags.evaluate {
        if positional.len() == 0 {
            let path = ModulePath { path: Vec::new() };
            proof {
                assert(string_views(path.path@) =~= Seq::<Seq<char>>::empty());
            }
            Ok(Subcommand::Evaluate { format: evaluate_format, path })
        } else if positional.len() == 1 {
            match parse_modulepath(positional) {
                Ok(path) => Ok(Subcommand::Evaluate { format: evaluate_format, path }),
                Err(e) => Err(e),
            }
        } else {
            let all = copy_strings(positional);
            let mut rest = all;
            let ghost before = rest@;
            let _ = rest.remove(0);
            proof {
                reveal_strlit("EVALUATE");
                assert(string_views(rest@) =~= string_views(before).drop_first());
            }
            Err(ConfigError::SubcommandArguments { subcommand: string_of("EVALUATE"), arguments: rest })
        }
    } else if flags.fmt {
        Ok(Subcommand::Format)
    } else if flags.groups {
        Ok(Subcommand::Groups)
    } else if flags.init {
        Ok(Subcommand::Init)
    } else if flags.json {
        Ok(Subcommand::Dump { format: DumpFormat::Json })
    } else if let Some(path) = &flags.list {
        match parse_modulepath(path) {
            Ok(path) => Ok(Subcommand::List { path }),
            Err(e) => Err(e),
        }
    } else if flags.man {
        Ok(Subcommand::Man)
    } else if let Some(request) = &flags.request {
        Ok(Subcommand::Request { request: string_of(request.as_str()) })
    } else if let Some(path) = &flags.show {
        match parse_modulepath(path) {
            Ok(path) => Ok(Subcommand::Show { path }),
            Err(e) => Err(e),
        }
    } else if flags.summary {
        Ok(Subcommand::Summary)
    } else if let Some(path) = &flags.usage {
        match parse_modulepath(path) {
            Ok(path) => Ok(Subcommand::Usage { path }),
            Err(e) => Err(e),
        }
    } else if flags.variables {
        Ok(Subcommand::Variables)
    } else {
        Ok(Subcommand::Run { arguments: copy_strings(positional) })
    }
}

} // verus!
