//! The cache of recipe body hashes kept between runs, by recipe name.
use crate::git_repository::ExPathBuf;
use crate::text::{str_equal, string_of};
use std::path::PathBuf;
use vstd::prelude::*;

verus! {

/// What is cached of a recipe.
#[derive(Debug, PartialEq, Eq)]
pub struct RecipeCache {
    /// The hash of the recipe body after evaluation
    pub body_hash: String,
    /// Whether the hash changed in this run
    pub hash_changed: bool,
}

/// The cache of one recipe file: where it was, and what is cached of each
/// recipe, by name (a later entry for a name taking the place of an earlier
/// one).
pub struct JustfileCache {
    pub justfile_path: PathBuf,
    pub working_directory: PathBuf,
    pub recipes: Vec<(String, RecipeCache)>,
}

/// What is cached of a recipe, as plain values.
pub open spec fn cache_view(c: RecipeCache) -> (Seq<char>, bool) {
    (c.body_hash@, c.hash_changed)
}

/// The map that the entries `entries` make, a later entry for a name
/// taking the place of an earlier one.
pub open spec fn entries_map(entries: Seq<(String, RecipeCache)>) -> Map<Seq<char>, (Seq<char>, bool)>
    decreases entries.len(),
{
    if entries.len() == 0 {
        Map::empty()
    } else {
        entries_map(entries.drop_last()).insert(entries.last().0@, cache_view(entries.last().1))
    }
}

/// No entry of `entries` from position `i` on is for `name`.
pub open spec fn absent_from(entries: Seq<(String, RecipeCache)>, name: Seq<char>, i: int) -> bool {
    forall|j: int| i <= j < entries.len() ==> (#[trigger] entries[j]).0@ != name
}

proof fn lemma_entries_map_absent(entries: Seq<(String, RecipeCache)>, name: Seq<char>)
    requires
        absent_from(entries, name, 0),
    ensures
        !entries_map(entries).contains_key(name),
    decreases entries.len(),
{
    if entries.len() > 0 {
        lemma_entries_map_absent(entries.drop_last(), name);
    }
}

proof fn lemma_entries_map_update(
    entries: Seq<(String, RecipeCache)>,
    i: int,
    entry: (String, RecipeCache),
)
    requires
        0 <= i < entries.len(),
        entries[i].0@ == entry.0@,
        absent_from(entries, entry.0@, i + 1),
    ensures
        entries_map(entries.update(i, entry)) == entries_map(entries).insert(entry.0@, cache_view(entry.1)),
    decreases entries.len(),
{
    let updated = entries.update(i, entry);
    if i == entries.len() - 1 {
        assert(updated.drop_last() =~= entries.drop_last());
        assert(entries_map(updated) =~= entries_map(entries).insert(entry.0@, cache_view(entry.1)));
    } else {
        let front = entries.drop_last();
        lemma_entries_map_update(front, i, entry);
        assert(updated.drop_last() =~= front.update(i, entry));
        assert(entries.last().0@ != entry.0@);
        assert(entries_map(updated) =~= entries_map(entries).insert(entry.0@, cache_view(entry.1)));
    }
}

impl View for JustfileCache {
    type V = Map<Seq<char>, (Seq<char>, bool)>;

    open spec fn view(&self) -> Map<Seq<char>, (Seq<char>, bool)> {
        entries_map(self.recipes@)
    }
}

impl JustfileCache {
    /// An empty cache for the recipe file at `justfile_path`, run in
    /// `working_directory`.
    pub fn new_empty(justfile_path: PathBuf, working_directory: PathBuf) -> (r: Self)
        ensures
            r@ == Map::<Seq<char>, (Seq<char>, bool)>::empty(),
            r.justfile_path == justfile_path,
            r.working_directory == working_directory,
    {
        JustfileCache { justfile_path, working_directory, recipes: Vec::new() }
    }

    /// Records `body_hash` as the hash of the recipe `name`, changed in this
    /// run.
    pub fn insert_recipe(&mut self, name: String, body_hash: String)
        ensures
            final(self)@ == old(self)@.insert(name@, (body_hash@, true)),
            final(self).justfile_path == old(self).justfile_path,
            final(self).working_directory == old(self).working_directory,
    {
        let entry = (name, RecipeCache { body_hash, hash_changed: true });
        let mut k: usize = self.recipes.len();
        while k > 0
            invariant
                k <= self.recipes.len(),
                self.recipes@ == old(self).recipes@,
                self.justfile_path == old(self).justfile_path,
                self.working_directory == old(self).working_directory,
                absent_from(self.recipes@, entry.0@, k as int),
                entry.0@ == name@,
                cache_view(entry.1) == (body_hash@, true),
            decreases k,
        {
            k -= 1;
            if str_equal(self.recipes[k].0.as_str(), entry.0.as_str()) {
                proof {
                    lemma_entries_map_update(self.recipes@, k as int, entry);
                }
                let ghost e = entry;
                self.recipes.set(k, entry);
                assert(self.recipes@ =~= old(self).recipes@.update(k as int, e));
                return;
            }
        }
        proof {
            lemma_entries_map_absent(self.recipes@, entry.0@);
        }
        let ghost before = self.recipes@;
        self.recipes.push(entry);
        assert(self.recipes@.drop_last() =~= before);
    }

    /// What is cached of the recipe `name`.
    pub fn get(&self, name: &str) -> (r: Option<&RecipeCache>)
        ensures
            match r {
                Some(c) => self@.contains_key(name@) && self@[name@] == cache_view(*c),
                None => !self@.contains_key(name@),
            },
    {
        let mut k: usize = self.recipes.len();
        while k > 0
            invariant
                k <= self.recipes.len(),
                absent_from(self.recipes@, name@, k as int),
            decreases k,
        {
            k -= 1;
            if str_equal(self.recipes[k].0.as_str(), name) {
                proof {
                    lemma_entries_map_last(self.recipes@, k as int);
                }
                return Some(&self.recipes[k].1);
            }
        }
        proof {
            lemma_entries_map_absent(self.recipes@, name@);
        }
        None
    }

}

/// After a recipe's hash is recorded, looking the recipe up gives that hash,
/// marked changed, and every other recipe is looked up as before.
pub proof fn lemma_lookup_after_insert(
    before: JustfileCache,
    after: JustfileCache,
    name: Seq<char>,
    body_hash: Seq<char>,
    other: Seq<char>,
)
    requires
        after@ == before@.insert(name, (body_hash, true)),
    ensures
        after@.contains_key(name),
        after@[name] == (body_hash, true),
        other != name ==> after@.contains_key(other) == before@.contains_key(other),
        other != name && before@.contains_key(other) ==> after@[other] == before@[other],
{
}

proof fn lemma_entries_map_last(entries: Seq<(String, RecipeCache)>, i: int)
    requires
        0 <= i < entries.len(),
        absent_from(entries, entries[i].0@, i + 1),
    ensures
        entries_map(entries).contains_key(entries[i].0@),
        entries_map(entries)[entries[i].0@] == cache_view(entries[i].1),
    decreases entries.len(),
{
    if i < entries.len() - 1 {
        let front = entries.drop_last();
        assert(front[i] == entries[i]);
        lemma_entries_map_last(front, i);
        assert(entries.last().0@ != entries[i].0@);
    }
}

} // verus!
