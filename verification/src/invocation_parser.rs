//! Grouping command-line arguments into invocations: a recipe and the
//! arguments of each of its parameters.
//!
//! A recipe is named either by several arguments that walk down the
//! modules (`foo bar`) or by one `::`-separated argument (`foo::bar`). In
//! the second form the path must end at the recipe: `foo::bar::baz` is an
//! error when `bar` is a recipe, while `foo bar baz` passes `baz` to
//! `foo::bar`. Error messages show the path as it was given.
use crate::justfile::{
    copy_parameters, parameter_views, spec_get_module, spec_get_recipe, spec_is_required, spec_suggest_recipe, suggestion_view,
    Justfile, Parameter, ParameterKind, Recipe, Suggestion,
};
use crate::lexer::{spec_is_identifier, Lexer};
use crate::text::{append_str, chars_of, find_char, first_index, push_char, string_from_chars, string_of, string_views};
use vstd::prelude::*;
use vstd::string::*;

verus! {

/// Why a command line could not be grouped into invocations.
#[derive(Debug, PartialEq, Eq)]
pub enum InvocationError {
    /// The default recipe has required parameters.
    DefaultRecipeRequiresArguments { recipe: String, min_arguments: usize },
    /// An option was given twice.
    DuplicateOption { recipe: String, option: String },
    /// A `::` path continues past a recipe.
    ExpectedSubmoduleButFoundRecipe { path: String },
    /// A required option was not given.
    MissingOption { recipe: String, option: String },
    /// No argument names a recipe and there is no default recipe.
    NoDefaultRecipe,
    /// No argument names a recipe and the module has no recipes.
    NoRecipes,
    /// An option without `=` is the last argument.
    OptionMissingValue { recipe: String, option: String },
    /// Too few positional arguments.
    PositionalArgumentCountMismatch {
        recipe: String,
        parameters: Vec<Parameter>,
        found: usize,
        min: usize,
        max: usize,
    },
    /// The recipe has no option of that name.
    UnknownOption { recipe: String, option: String },
    /// No recipe of that name, with a near name if there is one.
    UnknownRecipe { recipe: String, suggestion: Option<Suggestion> },
    /// A `::` path names a module that does not exist.
    UnknownSubmodule { path: String },
}

/// An `InvocationError` with its text as character sequences.
pub enum InvocationErrorView {
    DefaultRecipeRequiresArguments { recipe: Seq<char>, min_arguments: int },
    DuplicateOption { recipe: Seq<char>, option: Seq<char> },
    ExpectedSubmoduleButFoundRecipe { path: Seq<char> },
    MissingOption { recipe: Seq<char>, option: Seq<char> },
    NoDefaultRecipe,
    NoRecipes,
    OptionMissingValue { recipe: Seq<char>, option: Seq<char> },
    PositionalArgumentCountMismatch {
        recipe: Seq<char>,
        parameters: Seq<(Seq<char>, Option<Seq<char>>, ParameterKind, bool)>,
        found: int,
        min: int,
        max: int,
    },
    UnknownOption { recipe: Seq<char>, option: Seq<char> },
    UnknownRecipe { recipe: Seq<char>, suggestion: Option<(Seq<char>, Option<Seq<char>>)> },
    UnknownSubmodule { path: Seq<char> },
}

impl View for InvocationError {
    type V = InvocationErrorView;

    open spec fn view(&self) -> InvocationErrorView {
        match self {
            InvocationError::DefaultRecipeRequiresArguments { recipe, min_arguments } =>
                InvocationErrorView::DefaultRecipeRequiresArguments {
                recipe: recipe@,
                min_arguments: *min_arguments as int,
            },
            InvocationError::DuplicateOption { recipe, option } =>
                InvocationErrorView::DuplicateOption { recipe: recipe@, option: option@ },
            InvocationError::ExpectedSubmoduleButFoundRecipe { path } =>
                InvocationErrorView::ExpectedSubmoduleButFoundRecipe { path: path@ },
            InvocationError::MissingOption { recipe, option } =>
                InvocationErrorView::MissingOption { recipe: recipe@, option: option@ },
            InvocationError::NoDefaultRecipe => InvocationErrorView::NoDefaultRecipe,
            InvocationError::NoRecipes => InvocationErrorView::NoRecipes,
            InvocationError::OptionMissingValue { recipe, option } =>
                InvocationErrorView::OptionMissingValue { recipe: recipe@, option: option@ },
            InvocationError::PositionalArgumentCountMismatch { recipe, parameters, found, min, max } =>
                InvocationErrorView::PositionalArgumentCountMismatch {
                recipe: recipe@,
                parameters: parameter_views(parameters@),
                found: *found as int,
                min: *min as int,
                max: *max as int,
            },
            InvocationError::UnknownOption { recipe, option } =>
                InvocationErrorView::UnknownOption { recipe: recipe@, option: option@ },
            InvocationError::UnknownRecipe { recipe, suggestion } =>
                InvocationErrorView::UnknownRecipe {
                recipe: recipe@,
                suggestion: match suggestion {
                    Some(s) => Some(suggestion_view(*s)),
                    None => None,
                },
            },
            InvocationError::UnknownSubmodule { path } =>
                InvocationErrorView::UnknownSubmodule { path: path@ },
        }
    }
}

/// The texts of some string slices.
pub open spec fn arg_views(a: Seq<&str>) -> Seq<Seq<char>> {
    a.map_values(|s: &str| s@)
}

/// `parts` joined with `sep` between each two.
pub open spec fn spec_join(parts: Seq<Seq<char>>, sep: Seq<char>) -> Seq<char>
    decreases parts.len(),
{
    if parts.len() == 0 {
        Seq::empty()
    } else if parts.len() == 1 {
        parts[0]
    } else {
        spec_join(parts.drop_last(), sep) + sep + parts.last()
    }
}

/// The first `n` of `parts`, joined with `sep`.
fn join_path(parts: &[&str], n: usize, sep: &str) -> (r: String)
    requires
        n <= parts.len(),
    ensures
        r@ == spec_join(arg_views(parts@).take(n as int), sep@),
{
    let ghost views = arg_views(parts@);
    let mut r = String::new();
    let mut k: usize = 0;
    while k < n
        invariant
            views == arg_views(parts@),
            k <= n <= parts.len(),
            r@ == spec_join(views.take(k as int), sep@),
        decreases n - k,
    {
        let ghost before = r@;
        if k > 0 {
            append_str(&mut r, sep);
        }
        append_str(&mut r, parts[k]);
        proof {
            let next = views.take(k + 1);
            assert(next.drop_last() =~= views.take(k as int));
            assert(next.last() == parts@[k as int]@);
            if k == 0 {
                assert(r@ =~= next[0]);
            }
        }
        k += 1;
    }
    r
}

/// `s` cut at each `::`, left to right, with `cur` the text of the piece
/// begun before position `j`.
pub open spec fn split_from(s: Seq<char>, j: int, cur: Seq<char>) -> Seq<Seq<char>>
    decreases s.len() - j,
{
    if j < 0 || j >= s.len() {
        seq![cur]
    } else if s[j] == ':' && j + 1 < s.len() && s[j + 1] == ':' {
        seq![cur] + split_from(s, j + 2, Seq::empty())
    } else {
        split_from(s, j + 1, cur.push(s[j]))
    }
}

/// The pieces of `s` between its `::` separators.
pub open spec fn split_path(s: Seq<char>) -> Seq<Seq<char>> {
    split_from(s, 0, Seq::empty())
}

/// The components that `path` spells: a single argument cut at its `::`
/// separators, or several arguments taken as they are.
pub open spec fn path_components(path: Seq<Seq<char>>) -> Seq<Seq<char>> {
    if path.len() == 1 {
        split_path(path[0])
    } else {
        path
    }
}

/// Every one of `names` is an identifier.
pub open spec fn all_identifiers(names: Seq<Seq<char>>) -> bool {
    forall|k: int| 0 <= k < names.len() ==> spec_is_identifier(#[trigger] names[k])
}

/// The module path that `path` spells, if every one of its components is
/// an identifier.
pub open spec fn spec_module_path(path: Seq<Seq<char>>) -> Option<Seq<Seq<char>>> {
    if all_identifiers(path_components(path)) {
        Some(path_components(path))
    } else {
        None
    }
}

/// A path of module names, possibly ending in a recipe name.
#[derive(Debug, PartialEq, Eq)]
pub struct ModulePath {
    pub path: Vec<String>,
}

impl ModulePath {
    /// The module path spelled by `path`: one `::`-separated argument, or
    /// one argument per component.
    pub fn try_from(path: &[&str]) -> (r: Option<ModulePath>)
        ensures
            match r {
                Some(m) => spec_module_path(arg_views(path@)) == Some(string_views(m.path@)),
                None => spec_module_path(arg_views(path@)) is None,
            },
    {
        let ghost views = arg_views(path@);
        let mut components: Vec<String> = Vec::new();
        if path.len() == 1 {
            let chars = chars_of(path[0]);
            let ghost s = chars@;
            let mut cur = String::new();
            let mut j: usize = 0;
            while j < chars.len()
                invariant
                    s == chars@,
                    s == views[0],
                    j <= chars.len(),
                    split_path(s) == string_views(components@) + split_from(s, j as int, cur@),
                decreases chars.len() - j,
            {
                if chars[j] == ':' && j + 1 < chars.len() && chars[j + 1] == ':' {
                    let ghost before = components@;
                    let piece = cur;
                    cur = String::new();
                    components.push(piece);
                    proof {
                        assert(string_views(components@) =~= string_views(before) + seq![piece@]);
                        assert(split_from(s, j as int, piece@) == seq![piece@] + split_from(
                            s,
                            j + 2,
                            Seq::empty(),
                        ));
                        assert(cur@ =~= Seq::<char>::empty());
                    }
                    j += 2;
                } else {
                    push_char(&mut cur, chars[j]);
                    j += 1;
                }
            }
            let ghost before = components@;
            components.push(cur);
            assert(string_views(components@) =~= string_views(before) + seq![cur@]);
            assert(split_path(s) =~= string_views(components@));
        } else {
            let mut k: usize = 0;
            while k < path.len()
                invariant
                    views == arg_views(path@),
                    k <= path.len(),
                    string_views(components@) =~= views.take(k as int),
                decreases path.len() - k,
            {
                let ghost before = components@;
                components.push(string_of(path[k]));
                assert(string_views(components@) =~= string_views(before).push(views[k as int]));
                k += 1;
            }
            assert(views.take(path.len() as int) =~= views);
        }
        let ghost comps = string_views(components@);
        assert(comps == path_components(views));
        let mut k: usize = 0;
        while k < components.len()
            invariant
                views == arg_views(path@),
                comps == string_views(components@),
                comps == path_components(views),
                k <= components.len(),
                forall|m: int| 0 <= m < k ==> spec_is_identifier(#[trigger] comps[m]),
            decreases components.len() - k,
        {
            if !Lexer::is_identifier(components[k].as_str()) {
                assert(!spec_is_identifier(comps[k as int]));
                return None;
            }
            k += 1;
        }
        Some(ModulePath { path: components })
    }
}

/// The number of parameters that must be given an argument.
pub open spec fn count_required(params: Seq<Parameter>) -> nat
    decreases params.len(),
{
    if params.len() == 0 {
        0
    } else {
        count_required(params.drop_last()) + if spec_is_required(params.last()) {
            1nat
        } else {
            0nat
        }
    }
}

impl Recipe {
    /// The number of arguments the recipe needs at least.
    pub fn min_arguments(&self) -> (r: usize)
        ensures
            r == count_required(self.parameters@),
    {
        let mut count: usize = 0;
        let mut k: usize = 0;
        while k < self.parameters.len()
            invariant
                k <= self.parameters.len(),
                count == count_required(self.parameters@.take(k as int)),
                count <= k,
            decreases self.parameters.len() - k,
        {
            assert(self.parameters@.take(k + 1).drop_last() =~= self.parameters@.take(k as int));
            if self.parameters[k].is_required() {
                count += 1;
            }
            k += 1;
        }
        assert(self.parameters@.take(self.parameters.len() as int) =~= self.parameters@);
        count
    }

    /// Whether the recipe can run with no arguments, as a default recipe
    /// must.
    pub fn check_can_be_default_recipe(&self) -> (r: Result<(), InvocationError>)
        ensures
            r is Ok <==> count_required(self.parameters@) == 0,
            r matches Err(e) ==> e@ == (InvocationErrorView::DefaultRecipeRequiresArguments {
                recipe: self.name@,
                min_arguments: count_required(self.parameters@) as int,
            }),
    {
        let min_arguments = self.min_arguments();
        if min_arguments > 0 {
            return Err(
                InvocationError::DefaultRecipeRequiresArguments {
                    recipe: string_of(self.name.as_str()),
                    min_arguments,
                },
            );
        }
        Ok(())
    }
}

/// `::`, which separates the components of a module path.
pub open spec fn path_separator() -> Seq<char> {
    seq![':', ':']
}

/// Which recipe the names `args[i..]` lead to from the module `current`,
/// and how many of `args` that takes, with `colon_path` telling whether
/// they came from one `::`-separated argument. Each name is a submodule to
/// walk into, else a recipe (or alias) that ends the walk; when the names
/// run out the module's default recipe is taken.
pub open spec fn spec_resolve(current: Justfile, colon_path: bool, args: Seq<Seq<char>>, i: int) -> Result<(Recipe, int), InvocationErrorView>
    decreases args.len() - i,
{
    if 0 <= i < args.len() {
        let arg = args[i];
        let path = args.take(i + 1);
        match spec_get_module(current, arg) {
            Some(module) => spec_resolve(module, colon_path, args, i + 1),
            None => match spec_get_recipe(current, arg) {
                Some(recipe) => if colon_path && i + 1 < args.len() {
                    Err(
                        InvocationErrorView::ExpectedSubmoduleButFoundRecipe {
                            path: spec_join(path, path_separator()),
                        },
                    )
                } else {
                    Ok((recipe, i + 1))
                },
                None => if colon_path && i + 1 < args.len() {
                    Err(InvocationErrorView::UnknownSubmodule { path: spec_join(path, path_separator()) })
                } else {
                    Err(
                        InvocationErrorView::UnknownRecipe {
                            recipe: spec_join(
                                path,
                                if colon_path {
                                    path_separator()
                                } else {
                                    seq![' ']
                                },
                            ),
                            suggestion: spec_suggest_recipe(current, arg),
                        },
                    )
                },
            },
        }
    } else {
        match current.default {
            Some(recipe) => if count_required(recipe.parameters@) > 0 {
                Err(
                    InvocationErrorView::DefaultRecipeRequiresArguments {
                        recipe: recipe.name@,
                        min_arguments: count_required(recipe.parameters@) as int,
                    },
                )
            } else {
                Ok((recipe, args.len() as int))
            },
            None => if current.recipes.len() == 0 {
                Err(InvocationErrorView::NoRecipes)
            } else {
                Err(InvocationErrorView::NoDefaultRecipe)
            },
        }
    }
}

/// Walks `args` from the module `root` to a recipe, by the rule of
/// `spec_resolve`, and gives the recipe and how many of `args` it took.
pub fn resolve_recipe<'a>(root: &'a Justfile, colon_path: bool, args: &[&str]) -> (r: Result<(&'a Recipe, usize), InvocationError>)
    ensures
        match spec_resolve(*root, colon_path, arg_views(args@), 0) {
            Ok((recipe, consumed)) => r matches Ok((found, n)) && *found == recipe && n == consumed,
            Err(e) => r matches Err(x) && x@ == e,
        },
{
    let ghost views = arg_views(args@);
    let ghost goal = spec_resolve(*root, colon_path, views, 0);
    let mut current: &'a Justfile = root;
    let mut i: usize = 0;
    proof {
        reveal_strlit("::");
        reveal_strlit(" ");
    }
    while i < args.len()
        invariant
            views == arg_views(args@),
            goal == spec_resolve(*root, colon_path, views, 0),
            i <= args.len(),
            goal == spec_resolve(*current, colon_path, views, i as int),
            "::"@ == path_separator(),
            " "@ == seq![' '],
        decreases args.len() - i,
    {
        let arg = args[i];
        match current.get_module(arg) {
            Some(module) => {
                current = module;
            },
            None => {
                match current.get_recipe(arg) {
                    Some(recipe) => {
                        if colon_path && i + 1 < args.len() {
                            return Err(
                                InvocationError::ExpectedSubmoduleButFoundRecipe {
                                    path: join_path(args, i + 1, "::"),
                                },
                            );
                        }
                        return Ok((recipe, i + 1));
                    },
                    None => {
                        if colon_path && i + 1 < args.len() {
                            return Err(InvocationError::UnknownSubmodule { path: join_path(args, i + 1, "::") });
                        }
                        let recipe = if colon_path {
                            join_path(args, i + 1, "::")
                        } else {
                            join_path(args, i + 1, " ")
                        };
                        let suggestion = current.suggest_recipe(arg);
                        return Err(InvocationError::UnknownRecipe { recipe, suggestion });
                    },
                }
            },
        }
        i += 1;
    }
    match &current.default {
        Some(recipe) => {
            match recipe.check_can_be_default_recipe() {
                Ok(()) => Ok((recipe, args.len())),
                Err(e) => Err(e),
            }
        },
        None => {
            if current.recipes.len() == 0 {
                Err(InvocationError::NoRecipes)
            } else {
                Err(InvocationError::NoDefaultRecipe)
            }
        },
    }
}

/// The integer values of some positions.
pub open spec fn usize_views(s: Seq<usize>) -> Seq<int> {
    s.map_values(|x: usize| x as int)
}

/// The texts of the arguments given to each parameter.
pub open spec fn group_views(groups: Seq<Vec<String>>) -> Seq<Seq<Seq<char>>> {
    groups.map_values(|g: Vec<String>| string_views(g@))
}

/// The positions of the parameters that take positional arguments (those
/// without an option name), in order.
pub open spec fn positional_indices(params: Seq<Parameter>) -> Seq<int>
    decreases params.len(),
{
    if params.len() == 0 {
        Seq::empty()
    } else {
        positional_indices(params.drop_last()) + if params.last().long is None {
            seq![params.len() - 1]
        } else {
            Seq::empty()
        }
    }
}

proof fn lemma_positional_indices(params: Seq<Parameter>)
    ensures
        forall|j: int|
            0 <= j < positional_indices(params).len() ==> 0 <= #[trigger] positional_indices(params)[j]
                < params.len() && params[positional_indices(params)[j]].long is None,
        forall|j: int, k: int|
            0 <= j < k < positional_indices(params).len() ==> #[trigger] positional_indices(params)[j]
                < #[trigger] positional_indices(params)[k],
    decreases params.len(),
{
    if params.len() > 0 {
        let front = params.drop_last();
        lemma_positional_indices(front);
        let all = positional_indices(params);
        let before = positional_indices(front);
        assert forall|j: int| 0 <= j < all.len() implies 0 <= #[trigger] all[j] < params.len()
            && params[all[j]].long is None by {
            if j < before.len() {
                assert(all[j] == before[j]);
                assert(front[before[j]] == params[before[j]]);
            }
        }
        assert forall|j: int, k: int| 0 <= j < k < all.len() implies #[trigger] all[j] < #[trigger] all[k] by {
            if k < before.len() {
                assert(all[j] == before[j]);
                assert(all[k] == before[k]);
            } else {
                assert(all[j] == before[j]);
            }
        }
    }
}

/// The parameter `p` is set by the option `name`.
pub open spec fn has_option(p: Parameter, name: Seq<char>) -> bool {
    match p.long {
        Some(l) => l@ == name,
        None => false,
    }
}

/// The position of the last parameter set by the option `name`.
pub open spec fn long_index(params: Seq<Parameter>, name: Seq<char>) -> Option<int>
    decreases params.len(),
{
    if params.len() == 0 {
        None
    } else if has_option(params.last(), name) {
        Some(params.len() - 1)
    } else {
        long_index(params.drop_last(), name)
    }
}

proof fn lemma_long_index(params: Seq<Parameter>, name: Seq<char>)
    ensures
        long_index(params, name) matches Some(k) ==> 0 <= k < params.len() && has_option(params[k], name),
    decreases params.len(),
{
    if params.len() > 0 {
        lemma_long_index(params.drop_last(), name);
    }
}

/// Some parameter is set by an option.
pub open spec fn has_long(params: Seq<Parameter>) -> bool {
    exists|k: int| 0 <= k < params.len() && (#[trigger] params[k]).long is Some
}

/// Some parameter takes a variable number of arguments.
pub open spec fn any_variadic(params: Seq<Parameter>) -> bool {
    exists|k: int| 0 <= k < params.len() && (#[trigger] params[k]).kind != ParameterKind::Singular
}

/// The number of parameters that take positional arguments.
pub open spec fn count_positional(params: Seq<Parameter>) -> nat
    decreases params.len(),
{
    if params.len() == 0 {
        0
    } else {
        count_positional(params.drop_last()) + if params.last().long is None {
            1nat
        } else {
            0nat
        }
    }
}

/// The number of required parameters that take positional arguments.
pub open spec fn count_required_positional(params: Seq<Parameter>) -> nat
    decreases params.len(),
{
    if params.len() == 0 {
        0
    } else {
        count_required_positional(params.drop_last()) + if spec_is_required(params.last())
            && params.last().long is None {
            1nat
        } else {
            0nat
        }
    }
}

/// The parameter `p` needs an argument and its group got none.
pub open spec fn is_missing(p: Parameter, group: Seq<Seq<char>>) -> bool {
    group.len() == 0 && spec_is_required(p)
}

/// The option name of the first of the first `n` parameters that is
/// missing and set by an option.
pub open spec fn first_missing_option(params: Seq<Parameter>, groups: Seq<Seq<Seq<char>>>, n: int) -> Option<Seq<char>>
    decreases n,
{
    if n <= 0 {
        None
    } else {
        match first_missing_option(params, groups, n - 1) {
            Some(option) => Some(option),
            None => if is_missing(params[n - 1], groups[n - 1]) {
                match params[n - 1].long {
                    Some(l) => Some(l@),
                    None => None,
                }
            } else {
                None
            },
        }
    }
}

proof fn lemma_first_missing_option_stays(params: Seq<Parameter>, groups: Seq<Seq<Seq<char>>>, m: int, n: int)
    requires
        0 <= m <= n,
        first_missing_option(params, groups, m) is Some,
    ensures
        first_missing_option(params, groups, n) == first_missing_option(params, groups, m),
    decreases n - m,
{
    if m < n {
        lemma_first_missing_option_stays(params, groups, m, n - 1);
    }
}

/// How many of the first `n` parameters are missing and positional.
pub open spec fn count_missing_positional(params: Seq<Parameter>, groups: Seq<Seq<Seq<char>>>, n: int) -> nat
    decreases n,
{
    if n <= 0 {
        0
    } else {
        count_missing_positional(params, groups, n - 1) + if is_missing(params[n - 1], groups[n - 1])
            && params[n - 1].long is None {
            1nat
        } else {
            0nat
        }
    }
}

/// `arg` begins with `--`.
pub open spec fn is_option_argument(arg: Seq<char>) -> bool {
    arg.len() >= 2 && arg[0] == '-' && arg[1] == '-'
}

/// The grouping of `rest[i..]` among the parameters `params` of the recipe
/// `recipe`, from the state reached at `i`: `pi` is the position in
/// `positional_indices(params)` of the next positional parameter,
/// `accepted` the number of positional arguments taken so far,
/// `end_of_options` whether options are over, and `groups` what each
/// parameter got so far. On success, the position where grouping stopped,
/// the number of positional arguments taken and the groups.
///
/// An argument `--name=value`, or `--name` followed by `value`, gives
/// `value` to the parameter set by the option `name`; `--` ends the
/// options (they never begin when no parameter is set by one). Any other
/// argument goes to the next positional parameter, which takes it and
/// every one after it if it is variadic. Grouping stops at the end of
/// `rest` or at an argument that no parameter can take.
pub open spec fn scan(
    params: Seq<Parameter>,
    rest: Seq<Seq<char>>,
    recipe: Seq<char>,
    i: int,
    pi: int,
    accepted: int,
    end_of_options: bool,
    groups: Seq<Seq<Seq<char>>>,
) -> Result<(int, int, Seq<Seq<Seq<char>>>), InvocationErrorView>
    decreases rest.len() - i,
{
    if i < 0 || i >= rest.len() {
        Ok((i, accepted, groups))
    } else if !end_of_options && is_option_argument(rest[i]) {
        let option = rest[i].skip(2);
        if option.len() == 0 {
            scan(params, rest, recipe, i + 1, pi, accepted, true, groups)
        } else {
            let eq = first_index(option, '=');
            if eq is None && i + 1 >= rest.len() {
                Err(InvocationErrorView::OptionMissingValue { recipe, option })
            } else {
                let name = match eq {
                    Some(k) => option.take(k),
                    None => option,
                };
                let value = match eq {
                    Some(k) => option.skip(k + 1),
                    None => rest[i + 1],
                };
                let next = match eq {
                    Some(k) => i + 1,
                    None => i + 2,
                };
                match long_index(params, name) {
                    None => Err(InvocationErrorView::UnknownOption { recipe, option: name }),
                    Some(index) => if groups[index].len() > 0 {
                        Err(InvocationErrorView::DuplicateOption { recipe, option: name })
                    } else {
                        scan(
                            params,
                            rest,
                            recipe,
                            next,
                            pi,
                            accepted,
                            end_of_options,
                            groups.update(index, groups[index].push(value)),
                        )
                    },
                }
            }
        }
    } else {
        let positional = positional_indices(params);
        if pi < 0 || pi >= positional.len() {
            Ok((i, accepted, groups))
        } else {
            let index = positional[pi];
            scan(
                params,
                rest,
                recipe,
                i + 1,
                if params[index].kind == ParameterKind::Singular {
                    pi + 1
                } else {
                    pi
                },
                accepted + 1,
                end_of_options,
                groups.update(index, groups[index].push(rest[i])),
            )
        }
    }
}

/// `n` groups with no arguments.
pub open spec fn empty_groups(n: nat) -> Seq<Seq<Seq<char>>> {
    Seq::new(n, |k: int| Seq::<Seq<char>>::empty())
}

/// Every parameter of `params` is singular and given by position.
pub open spec fn all_singular_positional(params: Seq<Parameter>) -> bool {
    forall|k: int|
        0 <= k < params.len() ==> (#[trigger] params[k]).long is None && params[k].kind
            == ParameterKind::Singular
}

proof fn lemma_positional_indices_all(params: Seq<Parameter>)
    requires
        all_singular_positional(params),
    ensures
        positional_indices(params) == Seq::new(params.len(), |k: int| k),
    decreases params.len(),
{
    if params.len() > 0 {
        lemma_positional_indices_all(params.drop_last());
        assert(positional_indices(params) =~= Seq::new(params.len(), |k: int| k));
    }
}

proof fn lemma_scan_singular(
    params: Seq<Parameter>,
    rest: Seq<Seq<char>>,
    recipe: Seq<char>,
    pi: int,
    groups: Seq<Seq<Seq<char>>>,
)
    requires
        all_singular_positional(params),
        positional_indices(params) == Seq::new(params.len(), |k: int| k),
        0 <= pi <= params.len() <= rest.len(),
        groups.len() == params.len(),
    ensures
        scan(params, rest, recipe, pi, pi, pi, true, groups) == Ok::<
            (int, int, Seq<Seq<Seq<char>>>),
            InvocationErrorView,
        >(
            (
                params.len() as int,
                params.len() as int,
                Seq::new(
                    params.len(),
                    |k: int|
                        if k < pi {
                            groups[k]
                        } else {
                            groups[k].push(rest[k])
                        },
                ),
            ),
        ),
    decreases params.len() - pi,
{
    let n = params.len() as int;
    let target = Seq::new(
        params.len(),
        |k: int|
            if k < pi {
                groups[k]
            } else {
                groups[k].push(rest[k])
            },
    );
    if pi == n {
        assert(target =~= groups);
    } else {
        let next = groups.update(pi, groups[pi].push(rest[pi]));
        assert(params[pi].kind == ParameterKind::Singular);
        lemma_scan_singular(params, rest, recipe, pi + 1, next);
        assert(Seq::new(
            params.len(),
            |k: int|
                if k < pi + 1 {
                    next[k]
                } else {
                    next[k].push(rest[k])
                },
        ) =~= target);
    }
}

proof fn lemma_none_missing(params: Seq<Parameter>, groups: Seq<Seq<Seq<char>>>, n: int)
    requires
        0 <= n <= params.len() <= groups.len(),
        forall|k: int| 0 <= k < n ==> (#[trigger] groups[k]).len() > 0,
    ensures
        first_missing_option(params, groups, n) is None,
        count_missing_positional(params, groups, n) == 0,
    decreases n,
{
    if n > 0 {
        lemma_none_missing(params, groups, n - 1);
        assert(groups[n - 1].len() > 0);
    }
}

/// A recipe whose parameters are all singular and given by position takes
/// one argument for each of them, in order: given at least as many
/// arguments as it has parameters, parameter `k` gets argument `k`, and the
/// grouping stops after the last parameter.
pub proof fn lemma_singular_arguments_in_order(recipe: Recipe, rest: Seq<Seq<char>>)
    requires
        all_singular_positional(recipe.parameters@),
        rest.len() >= recipe.parameters@.len(),
    ensures
        spec_group_arguments(recipe, rest) == Ok::<(Seq<Seq<Seq<char>>>, int), InvocationErrorView>(
            (
                Seq::new(recipe.parameters@.len(), |k: int| seq![rest[k]]),
                recipe.parameters@.len() as int,
            ),
        ),
{
    let params = recipe.parameters@;
    let n = params.len();
    lemma_positional_indices_all(params);
    assert(!has_long(params)) by {
        if has_long(params) {
            let k = choose|k: int| 0 <= k < params.len() && (#[trigger] params[k]).long is Some;
            assert(params[k].long is None);
        }
    }
    lemma_scan_singular(params, rest, recipe.name@, 0, empty_groups(n));
    let groups = Seq::new(n, |k: int| seq![rest[k]]);
    assert(Seq::new(
        n,
        |k: int|
            if k < 0 {
                empty_groups(n)[k]
            } else {
                empty_groups(n)[k].push(rest[k])
            },
    ) =~= groups);
    lemma_none_missing(params, groups, n as int);
}

/// The arguments `rest` given to `recipe`: the group of each parameter and
/// how many of `rest` were taken, or why they do not fit. After grouping
/// by `scan`, the first parameter that is set by an option, needs an
/// argument and got none is an error; else a positional parameter that
/// needs an argument and got none is one.
pub open spec fn spec_group_arguments(recipe: Recipe, rest: Seq<Seq<char>>) -> Result<(Seq<Seq<Seq<char>>>, int), InvocationErrorView> {
    let params = recipe.parameters@;
    match scan(params, rest, recipe.name@, 0, 0, 0, !has_long(params), empty_groups(params.len())) {
        Err(e) => Err(e),
        Ok((i, accepted, groups)) => match first_missing_option(params, groups, params.len() as int) {
            Some(option) => Err(InvocationErrorView::MissingOption { recipe: recipe.name@, option }),
            None => if count_missing_positional(params, groups, params.len() as int) > 0 {
                Err(
                    InvocationErrorView::PositionalArgumentCountMismatch {
                        recipe: recipe.name@,
                        parameters: parameter_views(params),
                        found: accepted,
                        min: count_required_positional(params) as int,
                        max: if any_variadic(params) {
                            usize::MAX - 1
                        } else {
                            count_positional(params) as int
                        },
                    },
                )
            } else {
                Ok((groups, i))
            },
        },
    }
}

/// The positions of the positional parameters, in order.
fn positional_parameters(params: &Vec<Parameter>) -> (r: Vec<usize>)
    ensures
        usize_views(r@) == positional_indices(params@),
{
    let mut r: Vec<usize> = Vec::new();
    let mut k: usize = 0;
    while k < params.len()
        invariant
            k <= params.len(),
            usize_views(r@) == positional_indices(params@.take(k as int)),
        decreases params.len() - k,
    {
        let ghost before = r@;
        assert(params@.take(k + 1).drop_last() =~= params@.take(k as int));
        if params[k].long.is_none() {
            r.push(k);
            assert(usize_views(r@) =~= usize_views(before).push(k as int));
        } else {
            assert(usize_views(r@) =~= usize_views(before) + Seq::<int>::empty());
        }
        k += 1;
    }
    assert(params@.take(params.len() as int) =~= params@);
    r
}

/// The position of the last parameter set by the option `name`.
fn option_parameter(params: &Vec<Parameter>, name: &str) -> (r: Option<usize>)
    ensures
        match long_index(params@, name@) {
            Some(k) => r == Some(k as usize),
            None => r is None,
        },
{
    let mut found: Option<usize> = None;
    let mut k: usize = 0;
    while k < params.len()
        invariant
            k <= params.len(),
            match long_index(params@.take(k as int), name@) {
                Some(j) => found == Some(j as usize),
                None => found is None,
            },
            found matches Some(j) ==> j < k,
        decreases params.len() - k,
    {
        assert(params@.take(k + 1).drop_last() =~= params@.take(k as int));
        assert(params@.take(k + 1).last() == params@[k as int]);
        let hit = match &params[k].long {
            Some(l) => crate::text::str_equal(l.as_str(), name),
            None => false,
        };
        if hit {
            found = Some(k);
        }
        k += 1;
    }
    assert(params@.take(params.len() as int) =~= params@);
    found
}

/// Whether some parameter is set by an option.
fn takes_options(params: &Vec<Parameter>) -> (r: bool)
    ensures
        r == has_long(params@),
{
    let mut k: usize = 0;
    while k < params.len()
        invariant
            k <= params.len(),
            forall|j: int| 0 <= j < k ==> (#[trigger] params@[j]).long is None,
        decreases params.len() - k,
    {
        if params[k].long.is_some() {
            return true;
        }
        k += 1;
    }
    false
}

/// Whether some parameter takes a variable number of arguments.
fn takes_variadic(params: &Vec<Parameter>) -> (r: bool)
    ensures
        r == any_variadic(params@),
{
    let mut k: usize = 0;
    while k < params.len()
        invariant
            k <= params.len(),
            forall|j: int| 0 <= j < k ==> (#[trigger] params@[j]).kind == ParameterKind::Singular,
        decreases params.len() - k,
    {
        if params[k].kind.is_variadic() {
            return true;
        }
        k += 1;
    }
    false
}

/// The numbers of required positional parameters and of all positional
/// parameters.
fn positional_counts(params: &Vec<Parameter>) -> (r: (usize, usize))
    ensures
        r.0 == count_required_positional(params@),
        r.1 == count_positional(params@),
{
    let mut required: usize = 0;
    let mut all: usize = 0;
    let mut k: usize = 0;
    while k < params.len()
        invariant
            k <= params.len(),
            required == count_required_positional(params@.take(k as int)),
            all == count_positional(params@.take(k as int)),
            required <= all <= k,
        decreases params.len() - k,
    {
        assert(params@.take(k + 1).drop_last() =~= params@.take(k as int));
        if params[k].long.is_none() {
            all += 1;
            if params[k].is_required() {
                required += 1;
            }
        }
        k += 1;
    }
    assert(params@.take(params.len() as int) =~= params@);
    (required, all)
}

/// Adds `value` to the group of parameter `index`.
fn push_to_group(groups: &mut Vec<Vec<String>>, index: usize, value: String)
    requires
        index < old(groups).len(),
    ensures
        final(groups)@.len() == old(groups)@.len(),
        group_views(final(groups)@) == group_views(old(groups)@).update(
            index as int,
            group_views(old(groups)@)[index as int].push(value@),
        ),
{
    let ghost before = groups@;
    let mut group = groups.remove(index);
    let ghost old_group = group@;
    group.push(value);
    groups.insert(index, group);
    assert(groups@ =~= before.update(index as int, group));
    assert(string_views(group@) =~= string_views(old_group).push(value@));
    assert(group_views(groups@) =~= group_views(before).update(
        index as int,
        group_views(before)[index as int].push(value@),
    ));
}

/// Groups the arguments `rest` among the parameters of `recipe`, by the
/// rule of `spec_group_arguments`: the arguments of each parameter, and
/// how many of `rest` were taken.
pub fn group_arguments(recipe: &Recipe, rest: &[&str]) -> (r: Result<(Vec<Vec<String>>, usize), InvocationError>)
    ensures
        match spec_group_arguments(*recipe, arg_views(rest@)) {
            Ok((groups, consumed)) => r matches Ok((g, n)) && group_views(g@) == groups && n == consumed,
            Err(e) => r matches Err(x) && x@ == e,
        },
{
    let ghost rv = arg_views(rest@);
    let ghost params = recipe.parameters@;
    let ghost name = recipe.name@;
    let n = recipe.parameters.len();
    let mut arguments: Vec<Vec<String>> = Vec::new();
    let mut k: usize = 0;
    while k < n
        invariant
            k <= n,
            n == recipe.parameters.len(),
            arguments@.len() == k,
            forall|j: int| 0 <= j < k ==> (#[trigger] arguments@[j])@.len() == 0,
        decreases n - k,
    {
        arguments.push(Vec::new());
        k += 1;
    }
    let ghost groups0 = group_views(arguments@);
    assert forall|j: int| 0 <= j < n implies #[trigger] groups0[j] == Seq::<Seq<char>>::empty() by {
        assert(string_views(arguments@[j]@) =~= Seq::<Seq<char>>::empty());
    }
    assert(groups0 =~= empty_groups(params.len()));
    let positional = positional_parameters(&recipe.parameters);
    proof {
        lemma_positional_indices(params);
    }
    let mut end_of_options = !takes_options(&recipe.parameters);
    let ghost goal = scan(params, rv, name, 0, 0, 0, end_of_options, groups0);
    let mut i: usize = 0;
    let mut positional_index: usize = 0;
    let mut positional_accepted: usize = 0;
    loop
        invariant
            rv == arg_views(rest@),
            params == recipe.parameters@,
            name == recipe.name@,
            n == params.len(),
            goal == scan(params, rv, name, 0, 0, 0, !has_long(params), empty_groups(params.len())),
            usize_views(positional@) == positional_indices(params),
            forall|j: int|
                0 <= j < positional_indices(params).len() ==> 0 <= #[trigger] positional_indices(
                    params,
                )[j] < params.len(),
            i <= rest.len(),
            positional_accepted <= i,
            arguments@.len() == n,
            goal == scan(
                params,
                rv,
                name,
                i as int,
                positional_index as int,
                positional_accepted as int,
                end_of_options,
                group_views(arguments@),
            ),
        ensures
            i <= rest.len(),
            positional_accepted <= i,
            arguments@.len() == n,
            goal == Ok::<(int, int, Seq<Seq<Seq<char>>>), InvocationErrorView>(
                (i as int, positional_accepted as int, group_views(arguments@)),
            ),
        decreases rest.len() - i,
    {
        if i >= rest.len() {
            break;
        }
        let argument = rest[i];
        let chars = chars_of(argument);
        assert(rv[i as int] == chars@);
        if !end_of_options && chars.len() >= 2 && chars[0] == '-' && chars[1] == '-' {
            if chars.len() == 2 {
                end_of_options = true;
                i += 1;
            } else {
                let option = string_from_chars(chars.as_slice(), 2, chars.len());
                assert(option@ =~= rv[i as int].skip(2));
                let option_chars = chars_of(option.as_str());
                let eq = find_char(option_chars.as_slice(), '=');
                let (option_name, value, next) = match eq {
                    Some(k) => {
                        let option_name = string_from_chars(option_chars.as_slice(), 0, k);
                        let value = string_from_chars(
                            option_chars.as_slice(),
                            k + 1,
                            option_chars.len(),
                        );
                        assert(option_name@ =~= option@.take(k as int));
                        assert(value@ =~= option@.skip(k + 1));
                        (option_name, value, i + 1)
                    },
                    None => {
                        if i + 1 >= rest.len() {
                            return Err(
                                InvocationError::OptionMissingValue {
                                    recipe: string_of(recipe.name.as_str()),
                                    option,
                                },
                            );
                        }
                        (option, string_of(rest[i + 1]), i + 2)
                    },
                };
                proof {
                    lemma_long_index(params, option_name@);
                }
                match option_parameter(&recipe.parameters, option_name.as_str()) {
                    None => {
                        return Err(
                            InvocationError::UnknownOption {
                                recipe: string_of(recipe.name.as_str()),
                                option: option_name,
                            },
                        );
                    },
                    Some(index) => {
                        if arguments[index].len() > 0 {
                            assert(group_views(arguments@)[index as int].len() > 0);
                            return Err(
                                InvocationError::DuplicateOption {
                                    recipe: string_of(recipe.name.as_str()),
                                    option: option_name,
                                },
                            );
                        }
                        push_to_group(&mut arguments, index, value);
                        i = next;
                    },
                }
            }
        } else {
            if positional_index >= positional.len() {
                break;
            }
            let index = positional[positional_index];
            assert(index as int == positional_indices(params)[positional_index as int]);
            let value = string_of(argument);
            push_to_group(&mut arguments, index, value);
            if !recipe.parameters[index].kind.is_variadic() {
                positional_index += 1;
            }
            positional_accepted += 1;
            i += 1;
        }
    }
    let ghost groups = group_views(arguments@);
    let mut missing_positional: usize = 0;
    let mut k: usize = 0;
    while k < n
        invariant
            rv == arg_views(rest@),
            params == recipe.parameters@,
            name == recipe.name@,
            n == params.len(),
            goal == scan(params, rv, name, 0, 0, 0, !has_long(params), empty_groups(params.len())),
            goal == Ok::<(int, int, Seq<Seq<Seq<char>>>), InvocationErrorView>(
                (i as int, positional_accepted as int, groups),
            ),
            arguments@.len() == n,
            groups == group_views(arguments@),
            k <= n,
            first_missing_option(params, groups, k as int) is None,
            missing_positional == count_missing_positional(params, groups, k as int),
            missing_positional <= k,
        decreases n - k,
    {
        assert(groups[k as int] == string_views(arguments@[k as int]@));
        if arguments[k].len() == 0 && recipe.parameters[k].is_required() {
            match &recipe.parameters[k].long {
                Some(option) => {
                    proof {
                        lemma_first_missing_option_stays(params, groups, k + 1, n as int);
                    }
                    return Err(
                        InvocationError::MissingOption {
                            recipe: string_of(recipe.name.as_str()),
                            option: string_of(option.as_str()),
                        },
                    );
                },
                None => {
                    missing_positional += 1;
                },
            }
        }
        k += 1;
    }
    if missing_positional > 0 {
        let (min, count) = positional_counts(&recipe.parameters);
        let max = if takes_variadic(&recipe.parameters) {
            usize::MAX - 1
        } else {
            count
        };
        return Err(
            InvocationError::PositionalArgumentCountMismatch {
                recipe: string_of(recipe.name.as_str()),
                parameters: copy_parameters(&recipe.parameters),
                found: positional_accepted,
                min,
                max,
            },
        );
    }
    Ok((arguments, i))
}

proof fn lemma_resolve_consumed(current: Justfile, colon_path: bool, args: Seq<Seq<char>>, i: int)
    requires
        0 <= i <= args.len(),
    ensures
        spec_resolve(current, colon_path, args, i) matches Ok((_, c)) ==> i <= c <= args.len() && (i
            < args.len() ==> i < c),
    decreases args.len() - i,
{
    if i < args.len() {
        if let Some(module) = spec_get_module(current, args[i]) {
            lemma_resolve_consumed(module, colon_path, args, i + 1);
        }
    }
}

proof fn lemma_scan_bounds(
    params: Seq<Parameter>,
    rest: Seq<Seq<char>>,
    recipe: Seq<char>,
    i: int,
    pi: int,
    accepted: int,
    end_of_options: bool,
    groups: Seq<Seq<Seq<char>>>,
)
    requires
        0 <= i <= rest.len(),
    ensures
        scan(params, rest, recipe, i, pi, accepted, end_of_options, groups) matches Ok((j, _, _)) ==> i
            <= j <= rest.len(),
    decreases rest.len() - i,
{
    if i < rest.len() {
        if !end_of_options && is_option_argument(rest[i]) {
            let option = rest[i].skip(2);
            if option.len() == 0 {
                lemma_scan_bounds(params, rest, recipe, i + 1, pi, accepted, true, groups);
            } else {
                let eq = first_index(option, '=');
                if !(eq is None && i + 1 >= rest.len()) {
                    let name = match eq {
                        Some(k) => option.take(k),
                        None => option,
                    };
                    let value = match eq {
                        Some(k) => option.skip(k + 1),
                        None => rest[i + 1],
                    };
                    let next = match eq {
                        Some(k) => i + 1,
                        None => i + 2,
                    };
                    if let Some(index) = long_index(params, name) {
                        lemma_scan_bounds(
                            params,
                            rest,
                            recipe,
                            next,
                            pi,
                            accepted,
                            end_of_options,
                            groups.update(index, groups[index].push(value)),
                        );
                    }
                }
            }
        } else {
            let positional = positional_indices(params);
            if 0 <= pi < positional.len() {
                let index = positional[pi];
                lemma_scan_bounds(
                    params,
                    rest,
                    recipe,
                    i + 1,
                    if params[index].kind == ParameterKind::Singular {
                        pi + 1
                    } else {
                        pi
                    },
                    accepted + 1,
                    end_of_options,
                    groups.update(index, groups[index].push(rest[i])),
                );
            }
        }
    }
}

/// The recipe that `args[next..]` name, and the position of its first
/// argument. An argument with a `:` is a whole module path and names the
/// recipe alone; otherwise names are taken one argument each.
pub open spec fn spec_select_recipe(root: Justfile, args: Seq<Seq<char>>, next: int) -> Result<(Recipe, int), InvocationErrorView> {
    if 0 <= next < args.len() && args[next].contains(':') {
        match spec_module_path(seq![args[next]]) {
            None => Err(InvocationErrorView::UnknownRecipe { recipe: args[next], suggestion: None }),
            Some(path) => match spec_resolve(root, true, path, 0) {
                Ok((recipe, _)) => Ok((recipe, next + 1)),
                Err(e) => Err(e),
            },
        }
    } else {
        match spec_resolve(root, false, args.skip(next), 0) {
            Ok((recipe, consumed)) => Ok((recipe, next + consumed)),
            Err(e) => Err(e),
        }
    }
}

/// The invocation that begins at `args[next]`: its recipe, the arguments
/// of each parameter, and where the next invocation begins.
#[verifier::opaque]
pub open spec fn spec_parse_invocation(root: Justfile, args: Seq<Seq<char>>, next: int) -> Result<(Recipe, Seq<Seq<Seq<char>>>, int), InvocationErrorView> {
    match spec_select_recipe(root, args, next) {
        Err(e) => Err(e),
        Ok((recipe, start)) => match spec_group_arguments(recipe, args.skip(start)) {
            Err(e) => Err(e),
            Ok((groups, taken)) => Ok((recipe, groups, start + taken)),
        },
    }
}

/// An invocation begun before the end of the arguments ends further on,
/// and no invocation ends past them.
pub proof fn lemma_parse_invocation_progress(root: Justfile, args: Seq<Seq<char>>, next: int)
    requires
        0 <= next <= args.len(),
    ensures
        spec_parse_invocation(root, args, next) matches Ok((_, _, after)) ==> next <= after
            <= args.len() && (next < args.len() ==> next < after),
{
    reveal(spec_parse_invocation);
    let rest = args.skip(next);
    lemma_resolve_consumed(root, false, rest, 0);
    if let Ok((recipe, start)) = spec_select_recipe(root, args, next) {
        assert(next <= start <= args.len());
        let params = recipe.parameters@;
        lemma_scan_bounds(
            params,
            args.skip(start),
            recipe.name@,
            0,
            0,
            0,
            !has_long(params),
            empty_groups(params.len()),
        );
    }
}

/// The invocations that `args[next..]` spell, one after another, until the
/// arguments run out.
pub open spec fn spec_parse_invocations(root: Justfile, args: Seq<Seq<char>>, next: int) -> Result<Seq<(Recipe, Seq<Seq<Seq<char>>>)>, InvocationErrorView>
    decreases args.len() - next,
{
    match spec_parse_invocation(root, args, next) {
        Err(e) => Err(e),
        Ok((recipe, groups, after)) => if !(0 <= next <= args.len()) || after >= args.len() {
            Ok(seq![(recipe, groups)])
        } else {
            proof {
                lemma_parse_invocation_progress(root, args, next);
            }
            match spec_parse_invocations(root, args, after) {
                Ok(more) => Ok(seq![(recipe, groups)] + more),
                Err(e) => Err(e),
            }
        },
    }
}

/// A recipe together with the arguments of each of its parameters.
#[derive(Debug, PartialEq, Eq)]
pub struct Invocation<'a> {
    pub arguments: Vec<Vec<String>>,
    pub recipe: &'a Recipe,
}

/// What some invocations hold: their recipes and argument texts.
pub open spec fn invocation_views(invocations: Seq<Invocation>) -> Seq<(Recipe, Seq<Seq<Seq<char>>>)> {
    invocations.map_values(|inv: Invocation| (*inv.recipe, group_views(inv.arguments@)))
}

/// `done` followed by what `more` holds, or the error of `more`.
pub open spec fn after_done(
    done: Seq<(Recipe, Seq<Seq<Seq<char>>>)>,
    more: Result<Seq<(Recipe, Seq<Seq<Seq<char>>>)>, InvocationErrorView>,
) -> Result<Seq<(Recipe, Seq<Seq<Seq<char>>>)>, InvocationErrorView> {
    match more {
        Ok(m) => Ok(done + m),
        Err(e) => Err(e),
    }
}

/// `args[from..]`.
fn slice_from<'a>(args: &[&'a str], from: usize) -> (r: Vec<&'a str>)
    requires
        from <= args.len(),
    ensures
        r@ == args@.skip(from as int),
        arg_views(r@) == arg_views(args@).skip(from as int),
{
    let mut r: Vec<&'a str> = Vec::new();
    let mut k = from;
    while k < args.len()
        invariant
            from <= k <= args.len(),
            r@ =~= args@.subrange(from as int, k as int),
        decreases args.len() - k,
    {
        r.push(args[k]);
        k += 1;
    }
    assert(r@ =~= args@.skip(from as int));
    assert(arg_views(r@) =~= arg_views(args@).skip(from as int));
    r
}

/// Reads recipes and their arguments off a command line.
pub struct InvocationParser<'a> {
    arguments: &'a [&'a str],
    next: usize,
    root: &'a Justfile,
}

impl<'a> InvocationParser<'a> {
    /// Groups `arguments` into invocations of recipes of `root`, by the
    /// rule of `spec_parse_invocations`.
    pub fn parse_invocations(root: &'a Justfile, arguments: &'a [&'a str]) -> (r: Result<Vec<Invocation<'a>>, InvocationError>)
        ensures
            match spec_parse_invocations(*root, arg_views(arguments@), 0) {
                Ok(invocations) => r matches Ok(v) && invocation_views(v@) == invocations,
                Err(e) => r matches Err(x) && x@ == e,
            },
    {
        let ghost views = arg_views(arguments@);
        let ghost goal = spec_parse_invocations(*root, views, 0);
        let mut invocations: Vec<Invocation<'a>> = Vec::new();
        let mut parser = InvocationParser { arguments, next: 0, root };
        assert(invocation_views(invocations@) =~= Seq::empty());
        loop
            invariant_except_break
                parser.arguments == arguments,
                parser.root == root,
                parser.next <= arguments.len(),
                views == arg_views(arguments@),
                goal == spec_parse_invocations(*root, views, 0),
                goal == after_done(
                    invocation_views(invocations@),
                    spec_parse_invocations(*root, views, parser.next as int),
                ),
            ensures
                goal == Ok::<Seq<(Recipe, Seq<Seq<Seq<char>>>)>, InvocationErrorView>(
                    invocation_views(invocations@),
                ),
            decreases arguments.len() - parser.next,
        {
            let ghost before = parser.next as int;
            let ghost done = invocation_views(invocations@);
            proof {
                lemma_parse_invocation_progress(*root, views, before);
            }
            match parser.parse_invocation() {
                Ok(invocation) => {
                    invocations.push(invocation);
                    assert(invocation_views(invocations@) =~= done.push(
                        (*invocation.recipe, group_views(invocation.arguments@)),
                    ));
                },
                Err(e) => {
                    assert(spec_parse_invocations(*root, views, before) == Err::<
                        Seq<(Recipe, Seq<Seq<Seq<char>>>)>,
                        InvocationErrorView,
                    >(e@));
                    return Err(e);
                },
            }
            let ghost this = invocation_views(invocations@).last();
            assert(spec_parse_invocation(*root, views, before) == Ok::<
                (Recipe, Seq<Seq<Seq<char>>>, int),
                InvocationErrorView,
            >((this.0, this.1, parser.next as int)));
            if parser.next == arguments.len() {
                assert(spec_parse_invocations(*root, views, before) == Ok::<
                    Seq<(Recipe, Seq<Seq<Seq<char>>>)>,
                    InvocationErrorView,
                >(seq![this]));
                assert(done + seq![this] =~= invocation_views(invocations@));
                break;
            }
            proof {
                let more = spec_parse_invocations(*root, views, parser.next as int);
                assert(spec_parse_invocations(*root, views, before) == after_done(seq![this], more));
                match more {
                    Ok(m) => {
                        assert(done + (seq![this] + m) =~= invocation_views(invocations@) + m);
                    },
                    Err(e) => {},
                }
            }
        }
        Ok(invocations)
    }

    /// The argument where the next invocation begins, if any is left.
    fn next(&self) -> (r: Option<&'a str>)
        ensures
            self.next < self.arguments.len() ==> r == Some(self.arguments@[self.next as int]),
            self.next >= self.arguments.len() ==> r is None,
    {
        if self.next < self.arguments.len() {
            Some(self.arguments[self.next])
        } else {
            None
        }
    }

    /// The arguments not taken yet.
    fn rest(&self) -> (r: Vec<&'a str>)
        requires
            self.next <= self.arguments.len(),
        ensures
            arg_views(r@) == arg_views(self.arguments@).skip(self.next as int),
    {
        slice_from(self.arguments, self.next)
    }

    /// Reads the invocation that begins at the next argument, by the rule
    /// of `spec_parse_invocation`, and moves past it.
    fn parse_invocation(&mut self) -> (r: Result<Invocation<'a>, InvocationError>)
        requires
            old(self).next <= old(self).arguments.len(),
        ensures
            final(self).arguments == old(self).arguments,
            final(self).root == old(self).root,
            final(self).next <= final(self).arguments.len(),
            match spec_parse_invocation(
                *old(self).root,
                arg_views(old(self).arguments@),
                old(self).next as int,
            ) {
                Ok((recipe, groups, after)) => r matches Ok(inv) && *inv.recipe == recipe
                    && group_views(inv.arguments@) == groups && final(self).next == after,
                Err(e) => r matches Err(x) && x@ == e,
            },
    {
        let ghost views = arg_views(self.arguments@);
        proof {
            reveal(spec_parse_invocation);
            lemma_parse_invocation_progress(*self.root, views, self.next as int);
        }
        let colon = match self.next() {
            Some(next) => crate::text::contains_char(chars_of(next).as_slice(), ':'),
            None => false,
        };
        let start: usize;
        let recipe: &'a Recipe;
        if colon {
            let next = self.arguments[self.next];
            let mut single: Vec<&str> = Vec::new();
            single.push(next);
            assert(arg_views(single@) =~= seq![views[self.next as int]]);
            match ModulePath::try_from(single.as_slice()) {
                None => {
                    return Err(
                        InvocationError::UnknownRecipe { recipe: string_of(next), suggestion: None },
                    );
                },
                Some(components_path) => {
                    let mut components: Vec<&str> = Vec::new();
                    let mut k: usize = 0;
                    while k < components_path.path.len()
                        invariant
                            k <= components_path.path.len(),
                            arg_views(components@) =~= string_views(components_path.path@).take(
                                k as int,
                            ),
                        decreases components_path.path.len() - k,
                    {
                        let ghost before = components@;
                        components.push(components_path.path[k].as_str());
                        assert(arg_views(components@) =~= arg_views(before).push(
                            components_path.path@[k as int]@,
                        ));
                        k += 1;
                    }
                    assert(string_views(components_path.path@).take(components_path.path.len() as int)
                        =~= string_views(components_path.path@));
                    match resolve_recipe(self.root, true, components.as_slice()) {
                        Ok((found, _)) => {
                            recipe = found;
                            start = self.next + 1;
                        },
                        Err(e) => {
                            return Err(e);
                        },
                    }
                },
            }
        } else {
            let rest = self.rest();
            match resolve_recipe(self.root, false, rest.as_slice()) {
                Ok((found, consumed)) => {
                    proof {
                        lemma_resolve_consumed(*self.root, false, views.skip(self.next as int), 0);
                    }
                    recipe = found;
                    start = self.next + consumed;
                },
                Err(e) => {
                    return Err(e);
                },
            }
        }
        let rest = slice_from(self.arguments, start);
        match group_arguments(recipe, rest.as_slice()) {
            Ok((arguments, taken)) => {
                self.next = start + taken;
                Ok(Invocation { arguments, recipe })
            },
            Err(e) => Err(e),
        }
    }
}

/// `groups` gives each of `params` a group, with at most one argument for
/// a parameter that takes exactly one.
pub open spec fn groups_fit(params: Seq<Parameter>, groups: Seq<Seq<Seq<char>>>) -> bool {
    &&& groups.len() == params.len()
    &&& forall|j: int|
        0 <= j < params.len() && (#[trigger] params[j]).kind == ParameterKind::Singular ==> groups[j].len()
            <= 1
}

/// `groups` fits `params`, and no positional parameter from the `pi`-th on
/// that takes exactly one argument has got one yet.
spec fn scan_fits(params: Seq<Parameter>, pi: int, groups: Seq<Seq<Seq<char>>>) -> bool {
    &&& groups_fit(params, groups)
    &&& 0 <= pi <= positional_indices(params).len()
    &&& forall|q: int|
        pi <= q < positional_indices(params).len() && params[#[trigger] positional_indices(params)[q]].kind
            == ParameterKind::Singular ==> groups[positional_indices(params)[q]].len() == 0
}

proof fn lemma_scan_fits(
    params: Seq<Parameter>,
    rest: Seq<Seq<char>>,
    recipe: Seq<char>,
    i: int,
    pi: int,
    accepted: int,
    end_of_options: bool,
    groups: Seq<Seq<Seq<char>>>,
)
    requires
        0 <= i <= rest.len(),
        scan_fits(params, pi, groups),
    ensures
        scan(params, rest, recipe, i, pi, accepted, end_of_options, groups) matches Ok((_, _, g))
            ==> groups_fit(params, g),
    decreases rest.len() - i,
{
    lemma_positional_indices(params);
    let positional = positional_indices(params);
    if i < rest.len() {
        if !end_of_options && is_option_argument(rest[i]) {
            let option = rest[i].skip(2);
            if option.len() == 0 {
                lemma_scan_fits(params, rest, recipe, i + 1, pi, accepted, true, groups);
            } else {
                let eq = first_index(option, '=');
                if !(eq is None && i + 1 >= rest.len()) {
                    let name = match eq {
                        Some(k) => option.take(k),
                        None => option,
                    };
                    let value = match eq {
                        Some(k) => option.skip(k + 1),
                        None => rest[i + 1],
                    };
                    let next = match eq {
                        Some(k) => i + 1,
                        None => i + 2,
                    };
                    lemma_long_index(params, name);
                    if let Some(index) = long_index(params, name) {
                        if groups[index].len() == 0 {
                            let updated = groups.update(index, groups[index].push(value));
                            assert forall|q: int|
                                pi <= q < positional.len() && params[#[trigger] positional[q]].kind
                                    == ParameterKind::Singular implies updated[positional[q]].len()
                                == 0 by {
                                assert(params[positional[q]].long is None);
                                assert(positional[q] != index);
                            }
                            lemma_scan_fits(params, rest, recipe, next, pi, accepted, end_of_options, updated);
                        }
                    }
                }
            }
        } else if 0 <= pi < positional.len() {
            let index = positional[pi];
            let updated = groups.update(index, groups[index].push(rest[i]));
            let next_pi = if params[index].kind == ParameterKind::Singular {
                pi + 1
            } else {
                pi
            };
            assert forall|q: int|
                next_pi <= q < positional.len() && params[#[trigger] positional[q]].kind
                    == ParameterKind::Singular implies updated[positional[q]].len() == 0 by {
                assert(q != pi);
                assert(positional[q] != index);
            }
            lemma_scan_fits(params, rest, recipe, i + 1, next_pi, accepted + 1, end_of_options, updated);
        }
    }
}

proof fn lemma_nothing_missing(params: Seq<Parameter>, groups: Seq<Seq<Seq<char>>>, n: int)
    requires
        0 <= n <= params.len(),
        first_missing_option(params, groups, n) is None,
        count_missing_positional(params, groups, n) == 0,
    ensures
        forall|j: int| 0 <= j < n ==> !is_missing(#[trigger] params[j], groups[j]),
    decreases n,
{
    if n > 0 {
        lemma_nothing_missing(params, groups, n - 1);
    }
}

/// The arguments of an invocation fit its recipe: each parameter has a
/// group, each parameter that needs an argument got one, and each that
/// takes exactly one got no more.
pub open spec fn invocation_fits(recipe: Recipe, groups: Seq<Seq<Seq<char>>>) -> bool {
    &&& groups_fit(recipe.parameters@, groups)
    &&& forall|j: int|
        0 <= j < recipe.parameters@.len() && spec_is_required(#[trigger] recipe.parameters@[j])
            ==> groups[j].len() > 0
}

/// Arguments grouped for a recipe fit it.
pub proof fn lemma_grouped_arguments_fit(recipe: Recipe, rest: Seq<Seq<char>>)
    ensures
        spec_group_arguments(recipe, rest) matches Ok((groups, _)) ==> invocation_fits(recipe, groups),
{
    let params = recipe.parameters@;
    lemma_positional_indices(params);
    lemma_scan_fits(params, rest, recipe.name@, 0, 0, 0, !has_long(params), empty_groups(params.len()));
    if let Ok((groups, _)) = spec_group_arguments(recipe, rest) {
        lemma_nothing_missing(params, groups, params.len() as int);
    }
}

/// Every invocation read off a command line fits its recipe: each
/// parameter has a group of arguments, each parameter that needs an
/// argument got at least one, and each that takes exactly one got at most
/// one.
pub proof fn lemma_invocations_fit(root: Justfile, args: Seq<Seq<char>>, next: int)
    requires
        0 <= next <= args.len(),
    ensures
        spec_parse_invocations(root, args, next) matches Ok(invocations) ==> forall|k: int|
            0 <= k < invocations.len() ==> invocation_fits(
                (#[trigger] invocations[k]).0,
                invocations[k].1,
            ),
    decreases args.len() - next,
{
    reveal(spec_parse_invocation);
    lemma_parse_invocation_progress(root, args, next);
    if let Ok((recipe, start)) = spec_select_recipe(root, args, next) {
        lemma_grouped_arguments_fit(recipe, args.skip(start));
    }
    if let Ok((recipe, groups, after)) = spec_parse_invocation(root, args, next) {
        if after < args.len() {
            lemma_invocations_fit(root, args, after);
            if let Ok(invocations) = spec_parse_invocations(root, args, next) {
                assert forall|k: int| 0 <= k < invocations.len() implies invocation_fits(
                    (#[trigger] invocations[k]).0,
                    invocations[k].1,
                ) by {
                    if k > 0 {
                        let more = spec_parse_invocations(root, args, after)->Ok_0;
                        assert(invocations[k] == more[k - 1]);
                    }
                }
            }
        }
    }
}

} // verus!
