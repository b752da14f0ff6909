//! A compiled recipe file, as far as looking up recipes, modules and
//! suggestions needs it.
use crate::string_literal::StringLiteral;
use crate::order::{
    is_sorted_order, key_views, lemma_sorted_order_unique, sorted_positions, KeyView, SortKey,
};
use crate::listing::contains_text;
use crate::text::{chars_of, str_equal, string_of, string_views};
use vstd::prelude::*;
use vstd::string::*;

verus! {

/// How many arguments a parameter takes.
#[derive(Clone, Copy, Debug, PartialEq, Eq, Structural)]
pub enum ParameterKind {
    /// Exactly one
    Singular,
    /// One or more (`+name`)
    Plus,
    /// Zero or more (`*name`)
    Star,
}

impl ParameterKind {
    /// Whether the parameter takes a variable number of arguments.
    pub fn is_variadic(self) -> (r: bool)
        ensures
            r == (self != ParameterKind::Singular),
    {
        match self {
            ParameterKind::Singular => false,
            ParameterKind::Plus | ParameterKind::Star => true,
        }
    }
}

/// A recipe parameter.
#[derive(Debug, PartialEq, Eq)]
pub struct Parameter {
    pub name: String,
    /// The name of the `--` option that sets it, if it is set by one.
    pub long: Option<String>,
    pub kind: ParameterKind,
    /// Whether it has a default value.
    pub has_default: bool,
}

impl Parameter {
    /// Whether an argument must be given for this parameter.
    pub fn is_required(&self) -> (r: bool)
        ensures
            r == spec_is_required(*self),
    {
        !self.has_default && !matches!(self.kind, ParameterKind::Star)
    }
}

/// What a parameter holds: its name, its option, its kind and whether it
/// has a default.
pub open spec fn parameter_view(p: Parameter) -> (Seq<char>, Option<Seq<char>>, ParameterKind, bool) {
    (
        p.name@,
        match p.long {
            Some(l) => Some(l@),
            None => None,
        },
        p.kind,
        p.has_default,
    )
}

/// What some parameters hold, in order.
pub open spec fn parameter_views(ps: Seq<Parameter>) -> Seq<(Seq<char>, Option<Seq<char>>, ParameterKind, bool)> {
    ps.map_values(|p: Parameter| parameter_view(p))
}

/// A copy of `ps`.
pub fn copy_parameters(ps: &Vec<Parameter>) -> (r: Vec<Parameter>)
    ensures
        parameter_views(r@) == parameter_views(ps@),
{
    let mut r: Vec<Parameter> = Vec::new();
    let mut i: usize = 0;
    while i < ps.len()
        invariant
            i <= ps@.len(),
            parameter_views(r@) == parameter_views(ps@).take(i as int),
        decreases ps@.len() - i,
    {
        let p = &ps[i];
        let copy = Parameter {
            name: string_of(p.name.as_str()),
            long: match &p.long {
                Some(l) => Some(string_of(l.as_str())),
                None => None,
            },
            kind: p.kind,
            has_default: p.has_default,
        };
        let ghost before = r@;
        r.push(copy);
        proof {
            assert(parameter_view(copy) == parameter_view(ps@[i as int]));
            assert(parameter_views(r@) =~= parameter_views(before).push(parameter_view(copy)));
            assert(parameter_views(ps@).take(i + 1) =~= parameter_views(ps@).take(i as int).push(
                parameter_view(ps@[i as int]),
            ));
        }
        i += 1;
    }
    assert(parameter_views(ps@).take(i as int) =~= parameter_views(ps@));
    r
}

/// Whether an argument must be given for `p`.
pub open spec fn spec_is_required(p: Parameter) -> bool {
    !p.has_default && p.kind != ParameterKind::Star
}

/// A recipe: its name, its parameters and whether it is private, with the
/// groups it belongs to and where it was written.
#[derive(Debug, PartialEq, Eq)]
pub struct Recipe {
    pub name: String,
    pub parameters: Vec<Parameter>,
    pub private: bool,
    /// The groups its attributes put it in
    pub groups: Vec<String>,
    /// The offsets of the imports through which it was reached
    pub import_offsets: Vec<usize>,
    /// The offset of its name in its source
    pub offset: usize,
}

/// An alias of a recipe.
#[derive(Debug, PartialEq, Eq)]
pub struct Alias {
    pub name: String,
    pub target: Recipe,
    pub private: bool,
}

/// A recipe file, with its submodules.
#[derive(Debug, PartialEq, Eq)]
pub struct Justfile {
    pub aliases: Vec<Alias>,
    /// The names of the variables it assigns
    pub assignments: Vec<String>,
    pub default: Option<Recipe>,
    /// The groups declared for the module
    pub groups: Vec<StringLiteral>,
    pub modules: Vec<Justfile>,
    /// The module's name; the root has none
    pub name: Option<String>,
    /// The offset of the module's name in its parent's source
    pub name_offset: usize,
    /// Whether the module is private
    pub private: bool,
    pub recipes: Vec<Recipe>,
}

/// A suggested name for a mistyped one, and what it aliases if it is an
/// alias.
#[derive(Debug, PartialEq, Eq)]
pub struct Suggestion {
    pub name: String,
    pub target: Option<String>,
}

/// Whether a recipe or alias with this name and privacy is public: not
/// private, and its name does not begin with `_`.
pub open spec fn spec_is_public(name: Seq<char>, private: bool) -> bool {
    !private && !(name.len() > 0 && name[0] == '_')
}

/// The Levenshtein distance between `a` and `b`: the least number of
/// single-character insertions, deletions and substitutions that turn one
/// into the other.
pub open spec fn levenshtein(a: Seq<char>, b: Seq<char>) -> nat
    decreases a.len() + b.len(),
{
    if a.len() == 0 {
        b.len()
    } else if b.len() == 0 {
        a.len()
    } else {
        let deletion = levenshtein(a.drop_last(), b) + 1;
        let insertion = levenshtein(a, b.drop_last()) + 1;
        let substitution = levenshtein(a.drop_last(), b.drop_last()) + if a.last() == b.last() {
            0nat
        } else {
            1nat
        };
        if deletion <= insertion && deletion <= substitution {
            deletion
        } else if insertion <= substitution {
            insertion
        } else {
            substitution
        }
    }
}

/// `edit_distance::edit_distance`: the Levenshtein distance between the
/// characters of `a` and `b`, as the crate's documentation and source give
/// it.
#[verifier::external_body]
fn edit_distance(a: &str, b: &str) -> (r: usize)
    ensures
        r == levenshtein(a@, b@),
{
    edit_distance::edit_distance(a, b)
}

/// `k` is the position of the first of `names` nearest to `input`, and it
/// is less than three edits away.
pub open spec fn is_best_suggestion(input: Seq<char>, names: Seq<Seq<char>>, k: int) -> bool {
    &&& 0 <= k < names.len()
    &&& levenshtein(input, names[k]) < 3
    &&& forall|j: int|
        0 <= j < names.len() ==> levenshtein(input, names[k]) <= levenshtein(input, #[trigger] names[j])
    &&& forall|j: int| 0 <= j < k ==> levenshtein(input, names[k]) < levenshtein(input, #[trigger] names[j])
}

/// The position of the first of `names` nearest to `input`, if it is less
/// than three edits away.
pub open spec fn spec_best_suggestion(input: Seq<char>, names: Seq<Seq<char>>) -> Option<int> {
    if exists|k: int| is_best_suggestion(input, names, k) {
        Some(choose|k: int| is_best_suggestion(input, names, k))
    } else {
        None
    }
}

/// The names of some suggestions.
pub open spec fn suggestion_names(candidates: Seq<Suggestion>) -> Seq<Seq<char>> {
    candidates.map_values(|c: Suggestion| c.name@)
}

/// The best suggestion for `input` among `candidates`: the first of those
/// nearest to it, if that is less than three edits away.
pub fn find_suggestion(input: &str, candidates: Vec<Suggestion>) -> (r: Option<Suggestion>)
    ensures
        match spec_best_suggestion(input@, suggestion_names(candidates@)) {
            Some(k) => r == Some(candidates@[k]),
            None => r is None,
        },
{
    let ghost names = suggestion_names(candidates@);
    let mut best: Option<(usize, usize)> = None;
    let mut i: usize = 0;
    while i < candidates.len()
        invariant
            names == suggestion_names(candidates@),
            i <= candidates.len(),
            match best {
                Some((k, d)) => {
                    &&& k < i
                    &&& d == levenshtein(input@, names[k as int])
                    &&& d < 3
                    &&& forall|j: int| 0 <= j < i ==> d <= levenshtein(input@, #[trigger] names[j])
                    &&& forall|j: int| 0 <= j < k ==> d < levenshtein(input@, #[trigger] names[j])
                },
                None => forall|j: int| 0 <= j < i ==> levenshtein(input@, #[trigger] names[j]) >= 3,
            },
        decreases candidates.len() - i,
    {
        let distance = edit_distance(input, candidates[i].name.as_str());
        assert(distance == levenshtein(input@, names[i as int]));
        if distance < 3 {
            match best {
                Some((_, d)) => {
                    if distance < d {
                        best = Some((i, distance));
                    }
                },
                None => {
                    best = Some((i, distance));
                },
            }
        }
        i += 1;
    }
    let mut candidates = candidates;
    match best {
        Some((k, d)) => {
            proof {
                assert(is_best_suggestion(input@, names, k as int));
                let chosen = choose|m: int| is_best_suggestion(input@, names, m);
                assert(is_best_suggestion(input@, names, chosen));
                if chosen < k {
                    assert(levenshtein(input@, names[k as int]) < levenshtein(input@, names[chosen]));
                } else if chosen > k {
                    assert(levenshtein(input@, names[chosen]) < levenshtein(input@, names[k as int]));
                }
            }
            Some(candidates.remove(k))
        },
        None => {
            proof {
                if exists|k: int| is_best_suggestion(input@, names, k) {
                    let k = choose|k: int| is_best_suggestion(input@, names, k);
                    assert(levenshtein(input@, names[k]) >= 3);
                }
            }
            None
        },
    }
}

/// The position of the first element of `names` that is `name`.
pub open spec fn first_named(names: Seq<Seq<char>>, name: Seq<char>) -> Option<int> {
    if exists|k: int| 0 <= k < names.len() && #[trigger] names[k] == name {
        Some(choose|k: int| 0 <= k < names.len() && names[k] == name && forall|j: int| 0 <= j < k ==> #[trigger] names[j] != name)
    } else {
        None
    }
}

pub proof fn lemma_first_named(names: Seq<Seq<char>>, name: Seq<char>, k: int)
    requires
        0 <= k < names.len(),
        names[k] == name,
        forall|j: int| 0 <= j < k ==> #[trigger] names[j] != name,
    ensures
        first_named(names, name) == Some(k),
{
    let c = choose|m: int| 0 <= m < names.len() && names[m] == name && forall|j: int| 0 <= j < m ==> #[trigger] names[j] != name;
    assert(0 <= c < names.len() && names[c] == name);
    if c < k {
        assert(names[c] != name);
    } else if c > k {
        assert(names[k] != name);
    }
}

/// Whether no two of `names` are the same, as in a table keyed by name.
pub open spec fn names_unique(names: Seq<Seq<char>>) -> bool {
    forall|i: int, j: int| 0 <= i < j < names.len() ==> #[trigger] names[i] != #[trigger] names[j]
}

/// Among distinct names, the lookup of a name finds the one entry with
/// that name.
pub proof fn lemma_unique_first_named(names: Seq<Seq<char>>, name: Seq<char>, k: int)
    requires
        names_unique(names),
        0 <= k < names.len(),
        names[k] == name,
    ensures
        first_named(names, name) == Some(k),
{
    assert forall|j: int| 0 <= j < k implies #[trigger] names[j] != name by {
        assert(names[j] != names[k]);
    }
    lemma_first_named(names, name, k);
}

/// The names of some recipes.
pub open spec fn recipe_names(recipes: Seq<Recipe>) -> Seq<Seq<char>> {
    recipes.map_values(|r: Recipe| r.name@)
}

/// The names of some aliases.
pub open spec fn alias_names(aliases: Seq<Alias>) -> Seq<Seq<char>> {
    aliases.map_values(|a: Alias| a.name@)
}

/// The names of some modules (the empty name for one without a name).
pub open spec fn module_names(modules: Seq<Justfile>) -> Seq<Seq<char>> {
    modules.map_values(
        |m: Justfile|
            match m.name {
                Some(n) => n@,
                None => Seq::empty(),
            },
    )
}

/// The recipe `name` names in `justfile`: a recipe of that name, else the
/// target of an alias of that name.
pub open spec fn spec_get_recipe(justfile: Justfile, name: Seq<char>) -> Option<Recipe> {
    match first_named(recipe_names(justfile.recipes@), name) {
        Some(k) => Some(justfile.recipes@[k]),
        None => match first_named(alias_names(justfile.aliases@), name) {
            Some(k) => Some(justfile.aliases@[k].target),
            None => None,
        },
    }
}

impl Justfile {
    /// Whether its recipes, its aliases and its submodules each have
    /// distinct names, as in tables keyed by name.
    pub open spec fn has_unique_names(self) -> bool {
        &&& names_unique(recipe_names(self.recipes@))
        &&& names_unique(alias_names(self.aliases@))
        &&& names_unique(module_names(self.modules@))
    }
}

proof fn lemma_recipe_lookup_order_free(xs: Seq<Recipe>, ys: Seq<Recipe>, name: Seq<char>)
    requires
        names_unique(recipe_names(xs)),
        names_unique(recipe_names(ys)),
        xs.to_multiset() == ys.to_multiset(),
    ensures
        match first_named(recipe_names(xs), name) {
            Some(k) => first_named(recipe_names(ys), name) matches Some(m) && ys[m] == xs[k],
            None => first_named(recipe_names(ys), name) is None,
        },
{
    broadcast use vstd::seq_lib::to_multiset_contains;
    if exists|k: int| 0 <= k < xs.len() && #[trigger] recipe_names(xs)[k] == name {
        let k = choose|k: int| 0 <= k < xs.len() && #[trigger] recipe_names(xs)[k] == name;
        lemma_unique_first_named(recipe_names(xs), name, k);
        assert(xs.contains(xs[k]));
        assert(xs.to_multiset().count(xs[k]) > 0);
        assert(ys.contains(xs[k]));
        let m = choose|m: int| 0 <= m < ys.len() && ys[m] == xs[k];
        assert(recipe_names(ys)[m] == name);
        lemma_unique_first_named(recipe_names(ys), name, m);
    } else if exists|m: int| 0 <= m < ys.len() && #[trigger] recipe_names(ys)[m] == name {
        let m = choose|m: int| 0 <= m < ys.len() && #[trigger] recipe_names(ys)[m] == name;
        assert(ys.contains(ys[m]));
        assert(ys.to_multiset().count(ys[m]) > 0);
        assert(xs.contains(ys[m]));
        let k = choose|k: int| 0 <= k < xs.len() && xs[k] == ys[m];
        assert(recipe_names(xs)[k] == name);
    }
}

proof fn lemma_alias_lookup_order_free(xs: Seq<Alias>, ys: Seq<Alias>, name: Seq<char>)
    requires
        names_unique(alias_names(xs)),
        names_unique(alias_names(ys)),
        xs.to_multiset() == ys.to_multiset(),
    ensures
        match first_named(alias_names(xs), name) {
            Some(k) => first_named(alias_names(ys), name) matches Some(m) && ys[m] == xs[k],
            None => first_named(alias_names(ys), name) is None,
        },
{
    broadcast use vstd::seq_lib::to_multiset_contains;
    if exists|k: int| 0 <= k < xs.len() && #[trigger] alias_names(xs)[k] == name {
        let k = choose|k: int| 0 <= k < xs.len() && #[trigger] alias_names(xs)[k] == name;
        lemma_unique_first_named(alias_names(xs), name, k);
        assert(xs.contains(xs[k]));
        assert(xs.to_multiset().count(xs[k]) > 0);
        assert(ys.contains(xs[k]));
        let m = choose|m: int| 0 <= m < ys.len() && ys[m] == xs[k];
        assert(alias_names(ys)[m] == name);
        lemma_unique_first_named(alias_names(ys), name, m);
    } else if exists|m: int| 0 <= m < ys.len() && #[trigger] alias_names(ys)[m] == name {
        let m = choose|m: int| 0 <= m < ys.len() && #[trigger] alias_names(ys)[m] == name;
        assert(ys.contains(ys[m]));
        assert(ys.to_multiset().count(ys[m]) > 0);
        assert(xs.contains(ys[m]));
        let k = choose|k: int| 0 <= k < xs.len() && xs[k] == ys[m];
        assert(alias_names(xs)[k] == name);
    }
}

/// Looking a recipe up does not depend on the order in which the recipes
/// and aliases are kept: two recipe files that hold the same recipes and
/// the same aliases, each name once, find the same recipe for every name.
pub proof fn lemma_get_recipe_order_free(a: Justfile, b: Justfile, name: Seq<char>)
    requires
        a.has_unique_names(),
        b.has_unique_names(),
        a.recipes@.to_multiset() == b.recipes@.to_multiset(),
        a.aliases@.to_multiset() == b.aliases@.to_multiset(),
    ensures
        spec_get_recipe(a, name) == spec_get_recipe(b, name),
{
    lemma_recipe_lookup_order_free(a.recipes@, b.recipes@, name);
    lemma_alias_lookup_order_free(a.aliases@, b.aliases@, name);
}

/// The submodule of `justfile` called `name`.
pub open spec fn spec_get_module(justfile: Justfile, name: Seq<char>) -> Option<Justfile> {
    match first_named(module_names(justfile.modules@), name) {
        Some(k) => Some(justfile.modules@[k]),
        None => None,
    }
}

proof fn lemma_module_lookup_order_free(xs: Seq<Justfile>, ys: Seq<Justfile>, name: Seq<char>)
    requires
        names_unique(module_names(xs)),
        names_unique(module_names(ys)),
        xs.to_multiset() == ys.to_multiset(),
    ensures
        match first_named(module_names(xs), name) {
            Some(k) => first_named(module_names(ys), name) matches Some(m) && ys[m] == xs[k],
            None => first_named(module_names(ys), name) is None,
        },
{
    broadcast use vstd::seq_lib::to_multiset_contains;
    if exists|k: int| 0 <= k < xs.len() && #[trigger] module_names(xs)[k] == name {
        let k = choose|k: int| 0 <= k < xs.len() && #[trigger] module_names(xs)[k] == name;
        lemma_unique_first_named(module_names(xs), name, k);
        assert(xs.contains(xs[k]));
        assert(xs.to_multiset().count(xs[k]) > 0);
        assert(ys.contains(xs[k]));
        let m = choose|m: int| 0 <= m < ys.len() && ys[m] == xs[k];
        assert(module_names(ys)[m] == name);
        lemma_unique_first_named(module_names(ys), name, m);
    } else if exists|m: int| 0 <= m < ys.len() && #[trigger] module_names(ys)[m] == name {
        let m = choose|m: int| 0 <= m < ys.len() && #[trigger] module_names(ys)[m] == name;
        assert(ys.contains(ys[m]));
        assert(ys.to_multiset().count(ys[m]) > 0);
        assert(xs.contains(ys[m]));
        let k = choose|k: int| 0 <= k < xs.len() && xs[k] == ys[m];
        assert(module_names(xs)[k] == name);
    }
}

/// Looking a submodule up does not depend on the order in which the
/// submodules are kept: two recipe files that hold the same submodules,
/// each name once, find the same submodule for every name.
pub proof fn lemma_get_module_order_free(a: Justfile, b: Justfile, name: Seq<char>)
    requires
        a.has_unique_names(),
        b.has_unique_names(),
        a.modules@.to_multiset() == b.modules@.to_multiset(),
    ensures
        spec_get_module(a, name) == spec_get_module(b, name),
{
    lemma_module_lookup_order_free(a.modules@, b.modules@, name);
}


/// Whether a name is public, by the rule of `spec_is_public`.
pub(crate) fn is_public(name: &String, private: bool) -> (r: bool)
    ensures
        r == spec_is_public(name@, private),
{
    let chars = chars_of(name.as_str());
    !private && !(chars.len() > 0 && chars[0] == '_')
}

/// What a suggestion shows: its name and its target.
pub open spec fn suggestion_view(s: Suggestion) -> (Seq<char>, Option<Seq<char>>) {
    (
        s.name@,
        match s.target {
            Some(t) => Some(t@),
            None => None,
        },
    )
}

/// What some suggestions show.
pub open spec fn suggestion_views(s: Seq<Suggestion>) -> Seq<(Seq<char>, Option<Seq<char>>)> {
    s.map_values(|x: Suggestion| suggestion_view(x))
}

/// The public recipes among `recipes`, as suggestions, in order.
pub open spec fn spec_recipe_candidates(recipes: Seq<Recipe>) -> Seq<(Seq<char>, Option<Seq<char>>)>
    decreases recipes.len(),
{
    if recipes.len() == 0 {
        Seq::empty()
    } else {
        let last = recipes.last();
        spec_recipe_candidates(recipes.drop_last()) + if spec_is_public(last.name@, last.private) {
            seq![(last.name@, None::<Seq<char>>)]
        } else {
            Seq::empty()
        }
    }
}

/// The public aliases among `aliases`, as suggestions with their targets,
/// in order.
pub open spec fn spec_alias_candidates(aliases: Seq<Alias>) -> Seq<(Seq<char>, Option<Seq<char>>)>
    decreases aliases.len(),
{
    if aliases.len() == 0 {
        Seq::empty()
    } else {
        let last = aliases.last();
        spec_alias_candidates(aliases.drop_last()) + if spec_is_public(last.name@, last.private) {
            seq![(last.name@, Some(last.target.name@))]
        } else {
            Seq::empty()
        }
    }
}

/// The recipe candidates are exactly the public recipes: each is the name
/// of a recipe that is not private and whose name does not begin with `_`,
/// offered with no target; and each such recipe is offered.
pub proof fn lemma_recipe_candidates_public(recipes: Seq<Recipe>)
    ensures
        forall|k: int|
            0 <= k < spec_recipe_candidates(recipes).len() ==> {
                let c = #[trigger] spec_recipe_candidates(recipes)[k];
                &&& c.1 is None
                &&& !(c.0.len() > 0 && c.0[0] == '_')
                &&& exists|i: int|
                    0 <= i < recipes.len() && (#[trigger] recipes[i]).name@ == c.0 && !recipes[i].private
            },
        forall|i: int|
            0 <= i < recipes.len() && !(#[trigger] recipes[i]).private && !(recipes[i].name@.len() > 0
                && recipes[i].name@[0] == '_') ==> exists|k: int|
                0 <= k < spec_recipe_candidates(recipes).len()
                    && (#[trigger] spec_recipe_candidates(recipes)[k]).0 == recipes[i].name@,
    decreases recipes.len(),
{
    if recipes.len() > 0 {
        let init = recipes.drop_last();
        let last = recipes.last();
        lemma_recipe_candidates_public(init);
        let ci = spec_recipe_candidates(init);
        let c = spec_recipe_candidates(recipes);
        assert forall|k: int| 0 <= k < c.len() implies {
            let x = #[trigger] c[k];
            &&& x.1 is None
            &&& !(x.0.len() > 0 && x.0[0] == '_')
            &&& exists|i: int| 0 <= i < recipes.len() && (#[trigger] recipes[i]).name@ == x.0 && !recipes[i].private
        } by {
            if k < ci.len() {
                assert(c[k] == ci[k]);
                let i = choose|i: int| 0 <= i < init.len() && (#[trigger] init[i]).name@ == ci[k].0 && !init[i].private;
                assert(recipes[i] == init[i]);
            } else {
                assert(c[k] == (last.name@, None::<Seq<char>>));
                assert(recipes[recipes.len() - 1] == last);
            }
        }
        assert forall|i: int|
            0 <= i < recipes.len() && !(#[trigger] recipes[i]).private && !(recipes[i].name@.len() > 0
                && recipes[i].name@[0] == '_') implies exists|k: int|
                0 <= k < c.len() && (#[trigger] c[k]).0 == recipes[i].name@ by {
            if i < init.len() {
                assert(recipes[i] == init[i]);
                let k = choose|k: int| 0 <= k < ci.len() && (#[trigger] ci[k]).0 == init[i].name@;
                assert(c[k] == ci[k]);
            } else {
                assert(c[ci.len() as int] == (last.name@, None::<Seq<char>>));
            }
        }
    }
}

/// The alias candidates are public aliases: each is the name of an alias
/// that is not private and whose name does not begin with `_`, offered with
/// the name of the recipe it stands for.
pub proof fn lemma_alias_candidates_public(aliases: Seq<Alias>)
    ensures
        forall|k: int|
            0 <= k < spec_alias_candidates(aliases).len() ==> {
                let c = #[trigger] spec_alias_candidates(aliases)[k];
                &&& !(c.0.len() > 0 && c.0[0] == '_')
                &&& exists|i: int|
                    0 <= i < aliases.len() && (#[trigger] aliases[i]).name@ == c.0 && !aliases[i].private
                        && c.1 == Some(aliases[i].target.name@)
            },
    decreases aliases.len(),
{
    if aliases.len() > 0 {
        let init = aliases.drop_last();
        let last = aliases.last();
        lemma_alias_candidates_public(init);
        let ci = spec_alias_candidates(init);
        let c = spec_alias_candidates(aliases);
        assert forall|k: int| 0 <= k < c.len() implies {
            let x = #[trigger] c[k];
            &&& !(x.0.len() > 0 && x.0[0] == '_')
            &&& exists|i: int|
                0 <= i < aliases.len() && (#[trigger] aliases[i]).name@ == x.0 && !aliases[i].private
                    && x.1 == Some(aliases[i].target.name@)
        } by {
            if k < ci.len() {
                assert(c[k] == ci[k]);
                let i = choose|i: int|
                    0 <= i < init.len() && (#[trigger] init[i]).name@ == ci[k].0 && !init[i].private
                        && ci[k].1 == Some(init[i].target.name@);
                assert(aliases[i] == init[i]);
            } else {
                assert(c[k] == (last.name@, Some(last.target.name@)));
                assert(aliases[aliases.len() - 1] == last);
            }
        }
    }
}

/// What candidates are sorted by: their names.
pub open spec fn name_keys(c: Seq<(Seq<char>, Option<Seq<char>>)>) -> Seq<KeyView> {
    c.map_values(|x: (Seq<char>, Option<Seq<char>>)| (Seq::<usize>::empty(), 0usize, x.0))
}

/// `c` sorted by name, candidates of the same name keeping their order, as
/// the recipe tables, which are ordered by name, list them.
pub open spec fn by_name(c: Seq<(Seq<char>, Option<Seq<char>>)>) -> Seq<(Seq<char>, Option<Seq<char>>)> {
    let order = choose|order: Seq<usize>| is_sorted_order(name_keys(c), order);
    Seq::new(c.len(), |i: int| c[order[i] as int])
}

/// The candidates for a mistyped recipe name in `justfile`: its public
/// recipes by name, then its public aliases by name.
pub open spec fn spec_candidates(justfile: Justfile) -> Seq<(Seq<char>, Option<Seq<char>>)> {
    by_name(spec_recipe_candidates(justfile.recipes@)) + by_name(spec_alias_candidates(justfile.aliases@))
}

/// The suggestion for a mistyped recipe name `input` in `justfile`: the
/// first of the nearest public recipes and aliases, recipes before aliases
/// and each by name, if it is less than three edits away.
pub open spec fn spec_suggest_recipe(justfile: Justfile, input: Seq<char>) -> Option<(Seq<char>, Option<Seq<char>>)> {
    let candidates = spec_candidates(justfile);
    match spec_best_suggestion(input, candidates.map_values(|c: (Seq<char>, Option<Seq<char>>)| c.0)) {
        Some(k) => Some(candidates[k]),
        None => None,
    }
}

/// `c` sorted by name, candidates of the same name keeping their order.
fn sort_by_name(c: Vec<Suggestion>) -> (r: Vec<Suggestion>)
    ensures
        suggestion_views(r@) == by_name(suggestion_views(c@)),
        forall|j: int|
            0 <= j < r@.len() ==> suggestion_views(c@).contains(#[trigger] suggestion_views(r@)[j]),
{
    let ghost views = suggestion_views(c@);
    let mut keys: Vec<SortKey> = Vec::new();
    let mut k: usize = 0;
    while k < c.len()
        invariant
            k <= c@.len(),
            views == suggestion_views(c@),
            key_views(keys@) == name_keys(views).take(k as int),
        decreases c@.len() - k,
    {
        let ghost before = keys@;
        keys.push(SortKey { offsets: Vec::new(), offset: 0, name: string_of(c[k].name.as_str()) });
        proof {
            assert(key_views(keys@) =~= key_views(before).push(name_keys(views)[k as int]));
            assert(name_keys(views).take(k + 1) =~= name_keys(views).take(k as int).push(
                name_keys(views)[k as int],
            ));
        }
        k += 1;
    }
    assert(name_keys(views).take(k as int) =~= name_keys(views));
    let order = sorted_positions(&keys);
    proof {
        let chosen = choose|o: Seq<usize>| is_sorted_order(name_keys(views), o);
        assert(is_sorted_order(name_keys(views), order@));
        lemma_sorted_order_unique(name_keys(views), order@, chosen);
        assert forall|i: int| 0 <= i < order@.len() implies #[trigger] order@[i] < c@.len() by {
            assert(order@.contains(order@[i]));
        }
    }
    let mut r: Vec<Suggestion> = Vec::new();
    let mut i: usize = 0;
    while i < order.len()
        invariant
            i <= order@.len(),
            order@.len() == c@.len(),
            views == suggestion_views(c@),
            forall|j: int| 0 <= j < order@.len() ==> #[trigger] order@[j] < c@.len(),
            suggestion_views(r@) == Seq::new(i as nat, |j: int| views[order@[j] as int]),
        decreases order@.len() - i,
    {
        let source = &c[order[i]];
        let copy = Suggestion {
            name: string_of(source.name.as_str()),
            target: match &source.target {
                Some(t) => Some(string_of(t.as_str())),
                None => None,
            },
        };
        let ghost before = r@;
        r.push(copy);
        proof {
            assert(suggestion_view(copy) == views[order@[i as int] as int]);
            assert(suggestion_views(r@) =~= suggestion_views(before).push(suggestion_view(copy)));
            assert(suggestion_views(r@) =~= Seq::new((i + 1) as nat, |j: int| views[order@[j] as int]));
        }
        i += 1;
    }
    proof {
        assert(suggestion_views(r@) =~= by_name(views));
        assert forall|j: int| 0 <= j < r@.len() implies views.contains(
            #[trigger] suggestion_views(r@)[j],
        ) by {
            assert(suggestion_views(r@)[j] == views[order@[j] as int]);
        }
    }
    r
}

impl Justfile {
    /// The position of the recipe called `name`.
    fn recipe_index(&self, name: &str) -> (r: Option<usize>)
        ensures
            match r {
                Some(k) => first_named(recipe_names(self.recipes@), name@) == Some(k as int) && k
                    < self.recipes.len(),
                None => first_named(recipe_names(self.recipes@), name@) is None,
            },
    {
        let ghost names = recipe_names(self.recipes@);
        let mut i: usize = 0;
        while i < self.recipes.len()
            invariant
                names == recipe_names(self.recipes@),
                i <= self.recipes.len(),
                forall|j: int| 0 <= j < i ==> #[trigger] names[j] != name@,
            decreases self.recipes.len() - i,
        {
            if str_equal(self.recipes[i].name.as_str(), name) {
                proof {
                    lemma_first_named(names, name@, i as int);
                }
                return Some(i);
            }
            i += 1;
        }
        None
    }

    /// The position of the alias called `name`.
    fn alias_index(&self, name: &str) -> (r: Option<usize>)
        ensures
            match r {
                Some(k) => first_named(alias_names(self.aliases@), name@) == Some(k as int) && k
                    < self.aliases.len(),
                None => first_named(alias_names(self.aliases@), name@) is None,
            },
    {
        let ghost names = alias_names(self.aliases@);
        let mut i: usize = 0;
        while i < self.aliases.len()
            invariant
                names == alias_names(self.aliases@),
                i <= self.aliases.len(),
                forall|j: int| 0 <= j < i ==> #[trigger] names[j] != name@,
            decreases self.aliases.len() - i,
        {
            if str_equal(self.aliases[i].name.as_str(), name) {
                proof {
                    lemma_first_named(names, name@, i as int);
                }
                return Some(i);
            }
            i += 1;
        }
        None
    }

    /// The submodule called `name`.
    pub fn get_module(&self, name: &str) -> (r: Option<&Justfile>)
        ensures
            match r {
                Some(m) => spec_get_module(*self, name@) == Some(*m),
                None => spec_get_module(*self, name@) is None,
            },
    {
        let ghost names = module_names(self.modules@);
        let mut i: usize = 0;
        while i < self.modules.len()
            invariant
                names == module_names(self.modules@),
                i <= self.modules.len(),
                forall|j: int| 0 <= j < i ==> #[trigger] names[j] != name@,
            decreases self.modules.len() - i,
        {
            let found = match &self.modules[i].name {
                Some(n) => str_equal(n.as_str(), name),
                None => name.unicode_len() == 0,
            };
            proof {
                if self.modules@[i as int].name is None && name@.len() == 0 {
                    assert(names[i as int] =~= name@);
                }
                assert(found == (names[i as int] == name@));
            }
            if found {
                proof {
                    lemma_first_named(names, name@, i as int);
                }
                return Some(&self.modules[i]);
            }
            i += 1;
        }
        None
    }

    /// The alias called `name`.
    pub fn get_alias(&self, name: &str) -> (r: Option<&Alias>)
        ensures
            match first_named(alias_names(self.aliases@), name@) {
                Some(k) => r == Some(&self.aliases@[k]),
                None => r is None,
            },
    {
        match self.alias_index(name) {
            Some(k) => Some(&self.aliases[k]),
            None => None,
        }
    }

    /// The recipe called `name`, or else the target of the alias called
    /// `name`.
    pub fn get_recipe(&self, name: &str) -> (r: Option<&Recipe>)
        ensures
            match r {
                Some(recipe) => spec_get_recipe(*self, name@) == Some(*recipe),
                None => spec_get_recipe(*self, name@) is None,
            },
    {
        match self.recipe_index(name) {
            Some(k) => Some(&self.recipes[k]),
            None => match self.alias_index(name) {
                Some(k) => Some(&self.aliases[k].target),
                None => None,
            },
        }
    }

    /// The names of the module's groups, in the order they were declared.
    pub fn groups(&self) -> (r: Vec<String>)
        ensures
            r@.len() == self.groups@.len(),
            forall|i: int| 0 <= i < r@.len() ==> #[trigger] r@[i]@ == self.groups@[i].cooked@,
    {
        let mut r: Vec<String> = Vec::new();
        let mut i: usize = 0;
        while i < self.groups.len()
            invariant
                i <= self.groups.len(),
                r@.len() == i,
                forall|j: int| 0 <= j < i ==> #[trigger] r@[j]@ == self.groups@[j].cooked@,
            decreases self.groups.len() - i,
        {
            r.push(string_of(self.groups[i].cooked.as_str()));
            i += 1;
        }
        r
    }

    /// Whether this is a submodule.
    pub fn is_submodule(&self) -> (r: bool)
        ensures
            r == self.name is Some,
    {
        self.name.is_some()
    }

    /// The module's name, empty for the root.
    pub fn name(&self) -> (r: String)
        ensures
            r@ == match self.name {
                Some(n) => n@,
                None => Seq::empty(),
            },
    {
        match &self.name {
            Some(n) => string_of(n.as_str()),
            None => String::new(),
        }
    }

    /// The candidates for a recipe suggestion: the public recipes, then the
    /// public aliases with their targets.
    pub fn recipe_candidates(&self) -> (r: Vec<Suggestion>)
        ensures
            suggestion_views(r@) == spec_candidates(*self),
            forall|j: int|
                0 <= j < r@.len() ==> {
                    let v = #[trigger] suggestion_views(r@)[j];
                    &&& v.1 is None ==> spec_recipe_candidates(self.recipes@).contains(v)
                    &&& v.1 is Some ==> spec_alias_candidates(self.aliases@).contains(v)
                },
    {
        let (recipes, aliases) = self.public_candidates();
        let mut r = sort_by_name(recipes);
        let sorted_aliases = sort_by_name(aliases);
        let ghost front = suggestion_views(r@);
        proof {
            lemma_recipe_candidates_public(self.recipes@);
            lemma_alias_candidates_public(self.aliases@);
            assert forall|j: int| 0 <= j < front.len() implies spec_recipe_candidates(self.recipes@).contains(
                #[trigger] front[j],
            ) && front[j].1 is None by {
                let rc = spec_recipe_candidates(self.recipes@);
                let k = choose|k: int| 0 <= k < rc.len() && rc[k] == front[j];
                assert(rc[k].1 is None);
            }
            let sa = suggestion_views(sorted_aliases@);
            assert forall|j: int| 0 <= j < sa.len() implies spec_alias_candidates(self.aliases@).contains(
                #[trigger] sa[j],
            ) && sa[j].1 is Some by {
                let ac = spec_alias_candidates(self.aliases@);
                let k = choose|k: int| 0 <= k < ac.len() && ac[k] == sa[j];
                assert(ac[k].1 is Some);
            }
        }
        let mut i: usize = 0;
        while i < sorted_aliases.len()
            invariant
                i <= sorted_aliases@.len(),
                forall|j: int| 0 <= j < front.len() ==> spec_recipe_candidates(self.recipes@).contains(
                    #[trigger] front[j],
                ) && front[j].1 is None,
                forall|j: int| 0 <= j < suggestion_views(sorted_aliases@).len() ==> spec_alias_candidates(
                    self.aliases@,
                ).contains(#[trigger] suggestion_views(sorted_aliases@)[j]) && suggestion_views(
                    sorted_aliases@,
                )[j].1 is Some,
                front == by_name(spec_recipe_candidates(self.recipes@)),
                suggestion_views(sorted_aliases@) == by_name(spec_alias_candidates(self.aliases@)),
                suggestion_views(r@) == front + suggestion_views(sorted_aliases@).take(i as int),
            decreases sorted_aliases@.len() - i,
        {
            let a = &sorted_aliases[i];
            let copy = Suggestion {
                name: string_of(a.name.as_str()),
                target: match &a.target {
                    Some(t) => Some(string_of(t.as_str())),
                    None => None,
                },
            };
            let ghost before = r@;
            r.push(copy);
            proof {
                assert(suggestion_views(r@) =~= suggestion_views(before).push(suggestion_view(copy)));
                assert(suggestion_views(sorted_aliases@).take(i + 1) =~= suggestion_views(
                    sorted_aliases@,
                ).take(i as int).push(suggestion_views(sorted_aliases@)[i as int]));
            }
            i += 1;
        }
        assert(suggestion_views(sorted_aliases@).take(i as int) =~= suggestion_views(sorted_aliases@));
        proof {
            let rv = suggestion_views(r@);
            let sa = suggestion_views(sorted_aliases@);
            assert forall|j: int| 0 <= j < r@.len() implies {
                let v = #[trigger] suggestion_views(r@)[j];
                &&& v.1 is None ==> spec_recipe_candidates(self.recipes@).contains(v)
                &&& v.1 is Some ==> spec_alias_candidates(self.aliases@).contains(v)
            } by {
                if j < front.len() {
                    assert(rv[j] == front[j]);
                } else {
                    assert(rv[j] == sa[j - front.len()]);
                }
            }
        }
        r
    }

    /// The public recipes, as suggestions, and the public aliases, as
    /// suggestions with their targets, each in the order of the file.
    fn public_candidates(&self) -> (r: (Vec<Suggestion>, Vec<Suggestion>))
        ensures
            suggestion_views(r.0@) == spec_recipe_candidates(self.recipes@),
            suggestion_views(r.1@) == spec_alias_candidates(self.aliases@),
    {
        let mut r: Vec<Suggestion> = Vec::new();
        let mut i: usize = 0;
        while i < self.recipes.len()
            invariant
                i <= self.recipes.len(),
                suggestion_views(r@) == spec_recipe_candidates(self.recipes@.subrange(0, i as int)),
            decreases self.recipes.len() - i,
        {
            let recipe = &self.recipes[i];
            let ghost before = r@;
            if is_public(&recipe.name, recipe.private) {
                r.push(Suggestion { name: string_of(recipe.name.as_str()), target: None });
            }
            proof {
                let prefix = self.recipes@.subrange(0, i + 1);
                assert(prefix.drop_last() =~= self.recipes@.subrange(0, i as int));
                assert(suggestion_views(r@) =~= spec_recipe_candidates(prefix));
            }
            i += 1;
        }
        assert(self.recipes@.subrange(0, self.recipes.len() as int) =~= self.recipes@);
        let ghost from_recipes = r@;
        let recipe_count = r.len();
        let mut i: usize = 0;
        while i < self.aliases.len()
            invariant
                i <= self.aliases.len(),
                suggestion_views(from_recipes) == spec_recipe_candidates(self.recipes@),
                suggestion_views(r@) == suggestion_views(from_recipes) + spec_alias_candidates(
                    self.aliases@.subrange(0, i as int),
                ),
            decreases self.aliases.len() - i,
        {
            let alias = &self.aliases[i];
            let ghost before = r@;
            if is_public(&alias.name, alias.private) {
                r.push(
                    Suggestion {
                        name: string_of(alias.name.as_str()),
                        target: Some(string_of(alias.target.name.as_str())),
                    },
                );
            }
            proof {
                let prefix = self.aliases@.subrange(0, i + 1);
                assert(prefix.drop_last() =~= self.aliases@.subrange(0, i as int));
                if r@.len() > before.len() {
                    assert(suggestion_view(r@.last()) == (alias.name@, Some(alias.target.name@)));
                    assert(suggestion_views(r@) =~= suggestion_views(before).push(suggestion_view(r@.last())));
                } else {
                    assert(r@ == before);
                }
                assert(suggestion_views(r@) =~= suggestion_views(from_recipes) + spec_alias_candidates(
                    prefix,
                ));
            }
            i += 1;
        }
        assert(self.aliases@.subrange(0, self.aliases.len() as int) =~= self.aliases@);
        let mut aliases: Vec<Suggestion> = Vec::new();
        let mut k: usize = recipe_count;
        assert(suggestion_views(aliases@) =~= (suggestion_views(r@)).subrange(from_recipes.len() as int, k as int));
        while k < r.len()
            invariant
                recipe_count == from_recipes.len(),
                suggestion_views(from_recipes) == spec_recipe_candidates(self.recipes@),
                suggestion_views(r@) == suggestion_views(from_recipes) + spec_alias_candidates(
                    self.aliases@,
                ),
                from_recipes.len() <= k <= r@.len(),
                suggestion_views(aliases@) =~= suggestion_views(r@).subrange(from_recipes.len() as int, k as int),
            decreases r@.len() - k,
        {
            let a = &r[k];
            let copy = Suggestion {
                name: string_of(a.name.as_str()),
                target: match &a.target {
                    Some(t) => Some(string_of(t.as_str())),
                    None => None,
                },
            };
            let ghost before_aliases = aliases@;
            aliases.push(copy);
            proof {
                assert(suggestion_views(aliases@) =~= suggestion_views(before_aliases).push(
                    suggestion_view(copy),
                ));
                assert(suggestion_view(copy) == suggestion_views(r@)[k as int]);
                assert(suggestion_views(aliases@) =~= suggestion_views(r@).subrange(
                    from_recipes.len() as int,
                    k + 1,
                ));
            }
            k += 1;
        }
        let ghost full = r@;
        r.truncate(recipe_count);
        proof {
            assert(r@ =~= full.subrange(0, recipe_count as int));
            assert(suggestion_views(r@) =~= suggestion_views(full).subrange(0, recipe_count as int));
            assert(suggestion_views(full).subrange(0, recipe_count as int) =~= suggestion_views(
                from_recipes,
            ));
            assert(suggestion_views(r@) =~= suggestion_views(from_recipes));
            assert(suggestion_views(aliases@) =~= spec_alias_candidates(self.aliases@));
        }
        (r, aliases)
    }

    /// A public recipe or alias whose name is near `input`: the first of
    /// the nearest candidates, recipes before aliases, if it is less than
    /// three edits away.
    pub fn suggest_recipe(&self, input: &str) -> (r: Option<Suggestion>)
        ensures
            match r {
                Some(s) => spec_suggest_recipe(*self, input@) == Some(suggestion_view(s)),
                None => spec_suggest_recipe(*self, input@) is None,
            },
            ({
                let candidates = spec_candidates(*self);
                match spec_best_suggestion(input@, candidates.map_values(|c: (Seq<char>, Option<Seq<char>>)| c.0)) {
                    Some(k) => r matches Some(s) && suggestion_view(s) == candidates[k],
                    None => r is None,
                }
            }),
            r is Some ==> levenshtein(input@, r->0.name@) < 3,
            r is Some && r->0.target is None ==> exists|i: int|
                0 <= i < self.recipes@.len() && (#[trigger] self.recipes@[i]).name@ == r->0.name@
                    && !self.recipes@[i].private && !(r->0.name@.len() > 0 && r->0.name@[0] == '_'),
            r is Some && r->0.target is Some ==> exists|i: int|
                0 <= i < self.aliases@.len() && (#[trigger] self.aliases@[i]).name@ == r->0.name@
                    && !self.aliases@[i].private && !(r->0.name@.len() > 0 && r->0.name@[0] == '_')
                    && r->0.target->0@ == self.aliases@[i].target.name@,
    {
        let candidates = self.recipe_candidates();
        proof {
            let views = spec_candidates(*self);
            assert(suggestion_names(candidates@) =~= views.map_values(|c: (Seq<char>, Option<Seq<char>>)| c.0)) by {
                assert forall|k: int| 0 <= k < candidates@.len() implies suggestion_names(candidates@)[k]
                    == views[k].0 by {
                    assert(suggestion_views(candidates@)[k] == views[k]);
                }
            }
        }
        let ghost cviews = suggestion_views(candidates@);
        let r = find_suggestion(input, candidates);
        proof {
            let views = spec_candidates(*self);
            if let Some(k) = spec_best_suggestion(input@, suggestion_names(candidates@)) {
                assert(suggestion_views(candidates@)[k] == views[k]);
                let v = cviews[k];
                assert(v == suggestion_view(r->0));
                assert(is_best_suggestion(input@, suggestion_names(candidates@), k));
                assert(suggestion_names(candidates@)[k] == v.0);
                lemma_recipe_candidates_public(self.recipes@);
                lemma_alias_candidates_public(self.aliases@);
                if v.1 is None {
                    let rc = spec_recipe_candidates(self.recipes@);
                    let m = choose|m: int| 0 <= m < rc.len() && rc[m] == v;
                    assert(rc[m] == v);
                } else {
                    let ac = spec_alias_candidates(self.aliases@);
                    let m = choose|m: int| 0 <= m < ac.len() && ac[m] == v;
                    assert(ac[m] == v);
                }
            }
        }
        r
    }

    /// A variable whose name is near `input`: the first by name of the
    /// nearest, if it is less than three edits away.
    pub fn suggest_variable(&self, input: &str) -> (r: Option<Suggestion>)
        ensures
            ({
                let candidates = by_name(variable_candidates(self.assignments@));
                match spec_best_suggestion(
                    input@,
                    candidates.map_values(|c: (Seq<char>, Option<Seq<char>>)| c.0),
                ) {
                    Some(k) => r matches Some(s) && suggestion_view(s) == candidates[k],
                    None => r is None,
                }
            }),
            r is Some ==> levenshtein(input@, r->0.name@) < 3 && r->0.target is None
                && string_views(self.assignments@).contains(r->0.name@),
    {
        let mut candidates: Vec<Suggestion> = Vec::new();
        let mut i: usize = 0;
        while i < self.assignments.len()
            invariant
                i <= self.assignments.len(),
                suggestion_views(candidates@) == variable_candidates(self.assignments@).take(i as int),
            decreases self.assignments.len() - i,
        {
            let ghost before = candidates@;
            let c = Suggestion { name: string_of(self.assignments[i].as_str()), target: None };
            candidates.push(c);
            proof {
                assert(suggestion_views(candidates@) =~= suggestion_views(before).push(suggestion_view(c)));
                assert(variable_candidates(self.assignments@).take(i + 1) =~= variable_candidates(
                    self.assignments@,
                ).take(i as int).push(variable_candidates(self.assignments@)[i as int]));
            }
            i += 1;
        }
        assert(variable_candidates(self.assignments@).take(i as int) =~= variable_candidates(
            self.assignments@,
        ));
        let ghost unsorted = suggestion_views(candidates@);
        let sorted = sort_by_name(candidates);
        let ghost views = by_name(variable_candidates(self.assignments@));
        proof {
            assert(suggestion_names(sorted@) =~= views.map_values(|c: (Seq<char>, Option<Seq<char>>)| c.0)) by {
                assert forall|k: int| 0 <= k < sorted@.len() implies suggestion_names(sorted@)[k] == views[k].0 by {
                    assert(suggestion_views(sorted@)[k] == views[k]);
                }
            }
        }
        let ghost sorted_views = suggestion_views(sorted@);
        let r = find_suggestion(input, sorted);
        proof {
            if let Some(k) = spec_best_suggestion(input@, suggestion_names(sorted@)) {
                assert(suggestion_views(sorted@)[k] == views[k]);
                assert(is_best_suggestion(input@, suggestion_names(sorted@), k));
                assert(suggestion_names(sorted@)[k] == sorted_views[k].0);
                assert(unsorted.contains(sorted_views[k]));
                let m = choose|m: int| 0 <= m < unsorted.len() && unsorted[m] == sorted_views[k];
                let vc = variable_candidates(self.assignments@);
                assert(unsorted[m] == vc[m]);
                assert(string_views(self.assignments@)[m] == self.assignments@[m]@);
            }
        }
        r
    }
}

/// The names among `overrides` that name no variable of `assignments`, in
/// their order.
pub open spec fn unknown_in_order(assignments: Seq<String>, overrides: Seq<String>) -> Seq<Seq<char>> {
    let known = string_views(assignments);
    string_views(overrides).filter(|name: Seq<char>| !known.contains(name))
}

/// `names` sorted, equal names keeping their order.
pub open spec fn names_sorted(names: Seq<Seq<char>>) -> Seq<Seq<char>> {
    by_name(names.map_values(|n: Seq<char>| (n, None::<Seq<char>>))).map_values(
        |c: (Seq<char>, Option<Seq<char>>)| c.0,
    )
}

/// The names among `overrides` that name no variable of `assignments`,
/// sorted by name, as the run reports them.
pub open spec fn spec_unknown_overrides(assignments: Seq<String>, overrides: Seq<String>) -> Seq<Seq<char>> {
    names_sorted(unknown_in_order(assignments, overrides))
}

impl Justfile {
    /// The overridden names that are not variables of this recipe file,
    /// sorted by name; a run that overrides any of them fails with all of
    /// them.
    pub fn unknown_overrides(&self, overrides: &Vec<String>) -> (r: Vec<String>)
        ensures
            string_views(r@) == spec_unknown_overrides(self.assignments@, overrides@),
    {
        let ghost known = string_views(self.assignments@);
        let ghost pred = |name: Seq<char>| !known.contains(name);
        let ghost views = string_views(overrides@);
        let mut r: Vec<String> = Vec::new();
        let mut i: usize = 0;
        while i < overrides.len()
            invariant
                i <= overrides@.len(),
                known == string_views(self.assignments@),
                pred == (|name: Seq<char>| !known.contains(name)),
                views == string_views(overrides@),
                string_views(r@) == views.take(i as int).filter(pred),
            decreases overrides@.len() - i,
        {
            let ghost before = r@;
            let unknown = !contains_text(&self.assignments, overrides[i].as_str());
            if unknown {
                r.push(string_of(overrides[i].as_str()));
            }
            proof {
                let front = views.take(i + 1);
                assert(front.drop_last() =~= views.take(i as int));
                assert(front.last() == overrides@[i as int]@);
                reveal_with_fuel(Seq::filter, 1);
                if unknown {
                    assert(string_views(r@) =~= string_views(before).push(overrides@[i as int]@));
                } else {
                    assert(string_views(r@) =~= string_views(before));
                }
            }
            i += 1;
        }
        assert(views.take(i as int) =~= views);
        let ghost unsorted = string_views(r@);
        let mut candidates: Vec<Suggestion> = Vec::new();
        let mut k: usize = 0;
        while k < r.len()
            invariant
                k <= r@.len(),
                unsorted == string_views(r@),
                suggestion_views(candidates@) == unsorted.map_values(
                    |n: Seq<char>| (n, None::<Seq<char>>),
                ).take(k as int),
            decreases r@.len() - k,
        {
            let ghost before = candidates@;
            let c = Suggestion { name: string_of(r[k].as_str()), target: None };
            candidates.push(c);
            proof {
                assert(suggestion_views(candidates@) =~= suggestion_views(before).push(
                    suggestion_view(c),
                ));
            }
            k += 1;
        }
        let ghost pairs = unsorted.map_values(|n: Seq<char>| (n, None::<Seq<char>>));
        assert(pairs.take(k as int) =~= pairs);
        let sorted = sort_by_name(candidates);
        let mut names: Vec<String> = Vec::new();
        let mut m: usize = 0;
        while m < sorted.len()
            invariant
                m <= sorted@.len(),
                suggestion_views(sorted@) == by_name(pairs),
                string_views(names@) == by_name(pairs).map_values(
                    |c: (Seq<char>, Option<Seq<char>>)| c.0,
                ).take(m as int),
            decreases sorted@.len() - m,
        {
            let ghost before = names@;
            names.push(string_of(sorted[m].name.as_str()));
            proof {
                assert(suggestion_views(sorted@)[m as int] == suggestion_view(sorted@[m as int]));
                assert(string_views(names@) =~= string_views(before).push(sorted@[m as int].name@));
            }
            m += 1;
        }
        proof {
            assert(suggestion_views(sorted@).len() == sorted@.len());
            assert(by_name(pairs).map_values(|c: (Seq<char>, Option<Seq<char>>)| c.0).take(
                m as int,
            ) =~= by_name(pairs).map_values(|c: (Seq<char>, Option<Seq<char>>)| c.0));
        }
        names
    }
}

/// The variables `assignments`, as suggestions.
pub open spec fn variable_candidates(assignments: Seq<String>) -> Seq<(Seq<char>, Option<Seq<char>>)> {
    assignments.map_values(|a: String| (a@, None::<Seq<char>>))
}

} // verus!
