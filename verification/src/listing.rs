//! The public recipes, modules and groups of a recipe file, in the order
//! listings show them.
use crate::justfile::{is_public, spec_is_public, Justfile, Recipe};
use crate::string_literal::StringLiteral;
use crate::order::{
    is_sorted_order, key_views, position_less, sorted_positions, stably_sorted, text_less,
    KeyView, SortKey,
};
use crate::text::{str_equal, string_of, string_views};
use vstd::prelude::*;

verus! {

/// The public ones of `recipes`, in order.
pub open spec fn public_recipe_list(recipes: Seq<Recipe>) -> Seq<Recipe>
    decreases recipes.len(),
{
    if recipes.len() == 0 {
        Seq::empty()
    } else {
        let front = public_recipe_list(recipes.drop_last());
        if spec_is_public(recipes.last().name@, recipes.last().private) {
            front.push(recipes.last())
        } else {
            front
        }
    }
}

/// The modules of `modules` that are not private, in order.
pub open spec fn public_module_list(modules: Seq<Justfile>) -> Seq<Justfile>
    decreases modules.len(),
{
    if modules.len() == 0 {
        Seq::empty()
    } else {
        let front = public_module_list(modules.drop_last());
        if !modules.last().private {
            front.push(modules.last())
        } else {
            front
        }
    }
}

/// What recipes are listed by when listings are not sorted by name: the
/// offsets of the imports they came through, then where their name is.
pub open spec fn recipe_key(r: Recipe) -> KeyView {
    (r.import_offsets@, r.offset, Seq::empty())
}

/// The keys of `recipes`.
pub open spec fn recipe_keys(recipes: Seq<Recipe>) -> Seq<KeyView> {
    recipes.map_values(|r: Recipe| recipe_key(r))
}

/// What recipes are listed by: their names, or, where listings are
/// `unsorted`, `recipe_key`.
pub open spec fn recipe_listing_key(r: Recipe, unsorted: bool) -> KeyView {
    if unsorted {
        recipe_key(r)
    } else {
        (Seq::empty(), 0, r.name@)
    }
}

/// The listing keys of `recipes`.
pub open spec fn recipe_listing_keys(recipes: Seq<Recipe>, unsorted: bool) -> Seq<KeyView> {
    recipes.map_values(|r: Recipe| recipe_listing_key(r, unsorted))
}

/// What modules are listed by: their names (the empty name for an unnamed
/// one), or, where listings are `unsorted`, `module_key`.
pub open spec fn module_listing_key(m: Justfile, unsorted: bool) -> KeyView {
    if unsorted {
        module_key(m)
    } else {
        (Seq::empty(), 0, match m.name {
            Some(n) => n@,
            None => Seq::empty(),
        })
    }
}

/// The listing keys of `modules`.
pub open spec fn module_listing_keys(modules: Seq<Justfile>, unsorted: bool) -> Seq<KeyView> {
    modules.map_values(|m: Justfile| module_listing_key(m, unsorted))
}

/// What modules are listed by when listings are not sorted by name: where
/// their name is, or 0 for an unnamed one.
pub open spec fn module_key(m: Justfile) -> KeyView {
    (Seq::empty(), if m.name is Some {
        m.name_offset
    } else {
        0
    }, Seq::empty())
}

/// The keys of `modules`.
pub open spec fn module_keys(modules: Seq<Justfile>) -> Seq<KeyView> {
    modules.map_values(|m: Justfile| module_key(m))
}

/// The values behind some references.
pub open spec fn derefs<T>(items: Seq<&T>) -> Seq<T> {
    items.map_values(|x: &T| *x)
}

/// `items` in the order `order` gives by position.
fn arrange<'a, T>(items: &Vec<&'a T>, order: &Vec<usize>) -> (r: Vec<&'a T>)
    requires
        forall|i: int| 0 <= i < order@.len() ==> #[trigger] order@[i] < items@.len(),
    ensures
        r@.len() == order@.len(),
        forall|i: int| 0 <= i < r@.len() ==> #[trigger] r@[i] == items@[order@[i] as int],
{
    let mut r: Vec<&'a T> = Vec::new();
    let mut k: usize = 0;
    while k < order.len()
        invariant
            k <= order@.len(),
            forall|i: int| 0 <= i < order@.len() ==> #[trigger] order@[i] < items@.len(),
            r@.len() == k,
            forall|i: int| 0 <= i < k ==> #[trigger] r@[i] == items@[order@[i] as int],
        decreases order@.len() - k,
    {
        r.push(items[order[k]]);
        k += 1;
    }
    r
}

/// A copy of `v`.
fn copy_offsets(v: &Vec<usize>) -> (r: Vec<usize>)
    ensures
        r@ == v@,
{
    let mut r: Vec<usize> = Vec::new();
    let mut k: usize = 0;
    while k < v.len()
        invariant
            k <= v@.len(),
            r@ == v@.take(k as int),
        decreases v@.len() - k,
    {
        r.push(v[k]);
        assert(v@.take(k + 1) =~= v@.take(k as int).push(v@[k as int]));
        k += 1;
    }
    assert(v@.take(k as int) =~= v@);
    r
}

proof fn lemma_sorted_order_bounds(keys: Seq<KeyView>, order: Seq<usize>)
    requires
        is_sorted_order(keys, order),
    ensures
        forall|i: int| 0 <= i < order.len() ==> #[trigger] order[i] < keys.len(),
{
    assert forall|i: int| 0 <= i < order.len() implies #[trigger] order[i] < keys.len() by {
        assert(order.contains(order[i]));
    }
}

impl Justfile {
    /// The public recipes: by name, or, where listings are `unsorted`, by
    /// the imports they came through and where they were written (a stable
    /// sort of the recipes in the order they are held).
    pub fn public_recipes(&self, unsorted: bool) -> (r: Vec<&Recipe>)
        ensures
            stably_sorted(
                public_recipe_list(self.recipes@),
                recipe_listing_keys(public_recipe_list(self.recipes@), unsorted),
                derefs(r@),
            ),
    {
        let mut f: Vec<&Recipe> = Vec::new();
        let mut i: usize = 0;
        while i < self.recipes.len()
            invariant
                i <= self.recipes@.len(),
                derefs(f@) == public_recipe_list(self.recipes@.take(i as int)),
            decreases self.recipes@.len() - i,
        {
            let ghost before = f@;
            if is_public(&self.recipes[i].name, self.recipes[i].private) {
                f.push(&self.recipes[i]);
            }
            proof {
                let prefix = self.recipes@.take(i + 1);
                assert(prefix.drop_last() =~= self.recipes@.take(i as int));
                assert(derefs(f@) =~= public_recipe_list(prefix));
            }
            i += 1;
        }
        assert(self.recipes@.take(i as int) =~= self.recipes@);
        let ghost items = derefs(f@);
        let mut keys: Vec<SortKey> = Vec::new();
        let mut k: usize = 0;
        while k < f.len()
            invariant
                k <= f@.len(),
                items == derefs(f@),
                key_views(keys@) == recipe_listing_keys(items, unsorted).take(k as int),
            decreases f@.len() - k,
        {
            let ghost before = keys@;
            if unsorted {
                keys.push(
                    SortKey { offsets: copy_offsets(&f[k].import_offsets), offset: f[k].offset, name: String::new() },
                );
            } else {
                keys.push(SortKey { offsets: Vec::new(), offset: 0, name: string_of(f[k].name.as_str()) });
            }
            proof {
                assert(key_views(keys@) =~= key_views(before).push(recipe_listing_key(items[k as int], unsorted)));
                assert(recipe_listing_keys(items, unsorted).take(k + 1) =~= recipe_listing_keys(items, unsorted).take(k as int).push(
                    recipe_listing_key(items[k as int], unsorted),
                ));
            }
            k += 1;
        }
        assert(recipe_listing_keys(items, unsorted).take(k as int) =~= recipe_listing_keys(items, unsorted));
        let order = sorted_positions(&keys);
        proof {
            lemma_sorted_order_bounds(key_views(keys@), order@);
        }
        let r = arrange(&f, &order);
        proof {
            assert(is_sorted_order(recipe_listing_keys(items, unsorted), order@));
            assert forall|j: int| 0 <= j < derefs(r@).len() implies #[trigger] derefs(r@)[j]
                == items[order@[j] as int] by {}
        }
        r
    }

    /// The modules that are not private: by name, or, where listings are
    /// `unsorted`, by where their names were written (a stable sort of the
    /// modules in the order they are held).
    pub fn public_modules(&self, unsorted: bool) -> (r: Vec<&Justfile>)
        ensures
            stably_sorted(
                public_module_list(self.modules@),
                module_listing_keys(public_module_list(self.modules@), unsorted),
                derefs(r@),
            ),
    {
        let mut f: Vec<&Justfile> = Vec::new();
        let mut i: usize = 0;
        while i < self.modules.len()
            invariant
                i <= self.modules@.len(),
                derefs(f@) == public_module_list(self.modules@.take(i as int)),
            decreases self.modules@.len() - i,
        {
            let ghost before = f@;
            if !self.modules[i].private {
                f.push(&self.modules[i]);
            }
            proof {
                let prefix = self.modules@.take(i + 1);
                assert(prefix.drop_last() =~= self.modules@.take(i as int));
                assert(derefs(f@) =~= public_module_list(prefix));
            }
            i += 1;
        }
        assert(self.modules@.take(i as int) =~= self.modules@);
        let ghost items = derefs(f@);
        let mut keys: Vec<SortKey> = Vec::new();
        let mut k: usize = 0;
        while k < f.len()
            invariant
                k <= f@.len(),
                items == derefs(f@),
                key_views(keys@) == module_listing_keys(items, unsorted).take(k as int),
            decreases f@.len() - k,
        {
            let ghost before = keys@;
            if unsorted {
                let offset = if f[k].name.is_some() {
                    f[k].name_offset
                } else {
                    0
                };
                keys.push(SortKey { offsets: Vec::new(), offset, name: String::new() });
            } else {
                let name = match &f[k].name {
                    Some(n) => string_of(n.as_str()),
                    None => String::new(),
                };
                keys.push(SortKey { offsets: Vec::new(), offset: 0, name });
            }
            proof {
                assert(key_views(keys@) =~= key_views(before).push(module_listing_key(items[k as int], unsorted)));
                assert(module_listing_keys(items, unsorted).take(k + 1) =~= module_listing_keys(items, unsorted).take(k as int).push(
                    module_listing_key(items[k as int], unsorted),
                ));
            }
            k += 1;
        }
        assert(module_listing_keys(items, unsorted).take(k as int) =~= module_listing_keys(items, unsorted));
        let order = sorted_positions(&keys);
        proof {
            lemma_sorted_order_bounds(key_views(keys@), order@);
        }
        let r = arrange(&f, &order);
        proof {
            assert(is_sorted_order(module_listing_keys(items, unsorted), order@));
            assert forall|j: int| 0 <= j < derefs(r@).len() implies #[trigger] derefs(r@)[j]
                == items[order@[j] as int] by {}
        }
        r
    }
}

/// The group entries of a recipe: for each of its groups, the offsets of
/// the imports it came through, where its name is, and the group.
pub open spec fn recipe_group_entries(r: Recipe) -> Seq<KeyView> {
    string_views(r.groups@).map_values(|g: Seq<char>| (r.import_offsets@, r.offset, g))
}

/// The group entries of the public ones of `recipes`, in order.
pub open spec fn recipes_group_entries(recipes: Seq<Recipe>) -> Seq<KeyView>
    decreases recipes.len(),
{
    if recipes.len() == 0 {
        Seq::empty()
    } else {
        recipes_group_entries(recipes.drop_last()) + if spec_is_public(
            recipes.last().name@,
            recipes.last().private,
        ) {
            recipe_group_entries(recipes.last())
        } else {
            Seq::empty()
        }
    }
}

/// The group entries of a module: for each of its groups, where its name
/// is, and the group.
pub open spec fn module_group_entries(m: Justfile) -> Seq<KeyView> {
    m.groups@.map_values(|g: StringLiteral| (Seq::<usize>::empty(), m.name_offset, g.cooked@))
}

/// The group entries of the modules of `modules` that are not private, in
/// order.
pub open spec fn modules_group_entries(modules: Seq<Justfile>) -> Seq<KeyView>
    decreases modules.len(),
{
    if modules.len() == 0 {
        Seq::empty()
    } else {
        modules_group_entries(modules.drop_last()) + if !modules.last().private {
            module_group_entries(modules.last())
        } else {
            Seq::empty()
        }
    }
}

/// Every group entry of the file: those of its public recipes, then those
/// of its public modules.
pub open spec fn group_entries(j: Justfile) -> Seq<KeyView> {
    recipes_group_entries(j.recipes@) + modules_group_entries(j.modules@)
}

/// What a group entry is sorted by: the whole entry where listings are
/// `unsorted`, else the group alone.
pub open spec fn group_sort_key(e: KeyView, unsorted: bool) -> KeyView {
    if unsorted {
        e
    } else {
        (Seq::empty(), 0, e.2)
    }
}

/// The sort keys of `entries`.
pub open spec fn group_sort_keys(entries: Seq<KeyView>, unsorted: bool) -> Seq<KeyView> {
    entries.map_values(|e: KeyView| group_sort_key(e, unsorted))
}

/// `s` without the repetitions of any of its items after the first.
pub open spec fn dedup_first(s: Seq<Seq<char>>) -> Seq<Seq<char>>
    decreases s.len(),
{
    if s.len() == 0 {
        Seq::empty()
    } else {
        let front = dedup_first(s.drop_last());
        if front.contains(s.last()) {
            front
        } else {
            front.push(s.last())
        }
    }
}

/// The groups of `entries`, taken in the positions `order` lists.
pub open spec fn groups_in_order(entries: Seq<KeyView>, order: Seq<usize>) -> Seq<Seq<char>> {
    order.map_values(|i: usize| entries[i as int].2)
}

/// Adds the group entry `(offsets, offset, group)` to `entries`, and its
/// sort key to `keys`.
fn push_group_entry(
    entries: &mut Vec<SortKey>,
    keys: &mut Vec<SortKey>,
    offsets: &Vec<usize>,
    offset: usize,
    group: &str,
    unsorted: bool,
)
    ensures
        key_views(final(entries)@) == key_views(old(entries)@).push((offsets@, offset, group@)),
        key_views(final(keys)@) == key_views(old(keys)@).push(
            group_sort_key((offsets@, offset, group@), unsorted),
        ),
{
    let ghost e0 = key_views(entries@);
    let ghost k0 = key_views(keys@);
    entries.push(SortKey { offsets: copy_offsets(offsets), offset, name: string_of(group) });
    if unsorted {
        keys.push(SortKey { offsets: copy_offsets(offsets), offset, name: string_of(group) });
    } else {
        keys.push(SortKey { offsets: Vec::new(), offset: 0, name: string_of(group) });
    }
    proof {
        assert(key_views(entries@) =~= e0.push((offsets@, offset, group@)));
        assert(key_views(keys@) =~= k0.push(group_sort_key((offsets@, offset, group@), unsorted)));
    }
}

/// Whether `items` holds `s`.
pub(crate) fn contains_text(items: &Vec<String>, s: &str) -> (r: bool)
    ensures
        r == string_views(items@).contains(s@),
{
    let mut i: usize = 0;
    while i < items.len()
        invariant
            i <= items@.len(),
            forall|j: int| 0 <= j < i ==> #[trigger] items@[j]@ != s@,
        decreases items@.len() - i,
    {
        if str_equal(items[i].as_str(), s) {
            assert(string_views(items@)[i as int] == s@);
            return true;
        }
        i += 1;
    }
    assert forall|j: int| 0 <= j < string_views(items@).len() implies string_views(items@)[j] != s@ by {
        assert(items@[j]@ != s@);
    }
    false
}

proof fn lemma_group_sort_keys_push(entries: Seq<KeyView>, e: KeyView, unsorted: bool)
    ensures
        group_sort_keys(entries.push(e), unsorted) == group_sort_keys(entries, unsorted).push(
            group_sort_key(e, unsorted),
        ),
{
    assert(group_sort_keys(entries.push(e), unsorted) =~= group_sort_keys(entries, unsorted).push(
        group_sort_key(e, unsorted),
    ));
}

impl Justfile {
    /// The groups of the public recipes and modules, each once: sorted by
    /// name, or, where listings are `unsorted`, in the order of the first
    /// recipe or module that has them.
    pub fn public_groups(&self, unsorted: bool) -> (r: Vec<String>)
        requires
            forall|k: int|
                0 <= k < self.modules@.len() && !(#[trigger] self.modules@[k]).private
                    ==> self.modules@[k].name is Some,
        ensures
            exists|order: Seq<usize>|
                #[trigger] is_sorted_order(group_sort_keys(group_entries(*self), unsorted), order)
                    && string_views(r@) == dedup_first(groups_in_order(group_entries(*self), order)),
    {
        let mut entries: Vec<SortKey> = Vec::new();
        let mut keys: Vec<SortKey> = Vec::new();
        assert(group_sort_keys(Seq::<KeyView>::empty(), unsorted) =~= Seq::<KeyView>::empty());
        let mut i: usize = 0;
        while i < self.recipes.len()
            invariant
                i <= self.recipes@.len(),
                key_views(entries@) == recipes_group_entries(self.recipes@.take(i as int)),
                key_views(keys@) == group_sort_keys(key_views(entries@), unsorted),
            decreases self.recipes@.len() - i,
        {
            let recipe = &self.recipes[i];
            let ghost e0 = key_views(entries@);
            let ghost all = recipe_group_entries(*recipe);
            if is_public(&recipe.name, recipe.private) {
                let mut j: usize = 0;
                assert(all.take(0) =~= Seq::<KeyView>::empty());
                assert(e0 + all.take(0) =~= e0);
                while j < recipe.groups.len()
                    invariant
                        j <= recipe.groups@.len(),
                        all == recipe_group_entries(*recipe),
                        key_views(entries@) == e0 + all.take(j as int),
                        key_views(keys@) == group_sort_keys(key_views(entries@), unsorted),
                    decreases recipe.groups@.len() - j,
                {
                    let ghost e1 = key_views(entries@);
                    push_group_entry(
                        &mut entries,
                        &mut keys,
                        &recipe.import_offsets,
                        recipe.offset,
                        recipe.groups[j].as_str(),
                        unsorted,
                    );
                    proof {
                        lemma_group_sort_keys_push(e1, all[j as int], unsorted);
                        assert(all.take(j + 1) =~= all.take(j as int).push(all[j as int]));
                        assert(key_views(entries@) =~= e0 + all.take(j + 1));
                    }
                    j += 1;
                }
                assert(all.take(j as int) =~= all);
            } else {
                assert(e0 + Seq::<KeyView>::empty() =~= e0);
            }
            proof {
                let prefix = self.recipes@.take(i + 1);
                assert(prefix.drop_last() =~= self.recipes@.take(i as int));
            }
            i += 1;
        }
        assert(self.recipes@.take(i as int) =~= self.recipes@);
        let ghost from_recipes = key_views(entries@);
        let mut i: usize = 0;
        assert(from_recipes + modules_group_entries(self.modules@.take(0)) =~= from_recipes);
        while i < self.modules.len()
            invariant
                i <= self.modules@.len(),
                from_recipes == recipes_group_entries(self.recipes@),
                key_views(entries@) == from_recipes + modules_group_entries(self.modules@.take(i as int)),
                key_views(keys@) == group_sort_keys(key_views(entries@), unsorted),
                forall|k: int|
                    0 <= k < self.modules@.len() && !(#[trigger] self.modules@[k]).private
                        ==> self.modules@[k].name is Some,
            decreases self.modules@.len() - i,
        {
            let module = &self.modules[i];
            let ghost e0 = key_views(entries@);
            let ghost all = module_group_entries(*module);
            if !module.private {
                let no_offsets: Vec<usize> = Vec::new();
                let mut j: usize = 0;
                assert(all.take(0) =~= Seq::<KeyView>::empty());
                assert(e0 + all.take(0) =~= e0);
                while j < module.groups.len()
                    invariant
                        j <= module.groups@.len(),
                        no_offsets@ == Seq::<usize>::empty(),
                        all == module_group_entries(*module),
                        key_views(entries@) == e0 + all.take(j as int),
                        key_views(keys@) == group_sort_keys(key_views(entries@), unsorted),
                    decreases module.groups@.len() - j,
                {
                    let ghost e1 = key_views(entries@);
                    push_group_entry(
                        &mut entries,
                        &mut keys,
                        &no_offsets,
                        module.name_offset,
                        module.groups[j].cooked.as_str(),
                        unsorted,
                    );
                    proof {
                        lemma_group_sort_keys_push(e1, all[j as int], unsorted);
                        assert(all.take(j + 1) =~= all.take(j as int).push(all[j as int]));
                        assert(key_views(entries@) =~= e0 + all.take(j + 1));
                    }
                    j += 1;
                }
                assert(all.take(j as int) =~= all);
            } else {
                assert(e0 + Seq::<KeyView>::empty() =~= e0);
            }
            proof {
                let prefix = self.modules@.take(i + 1);
                assert(prefix.drop_last() =~= self.modules@.take(i as int));
                assert(key_views(entries@) =~= from_recipes + modules_group_entries(prefix));
            }
            i += 1;
        }
        assert(self.modules@.take(i as int) =~= self.modules@);
        let ghost all_entries = key_views(entries@);
        assert(all_entries == group_entries(*self));
        let order = sorted_positions(&keys);
        proof {
            lemma_sorted_order_bounds(key_views(keys@), order@);
        }
        let ghost in_order = groups_in_order(all_entries, order@);
        let mut r: Vec<String> = Vec::new();
        let mut k: usize = 0;
        while k < order.len()
            invariant
                k <= order@.len(),
                all_entries == key_views(entries@),
                entries@.len() == keys@.len(),
                forall|i: int| 0 <= i < order@.len() ==> #[trigger] order@[i] < keys@.len(),
                in_order == groups_in_order(all_entries, order@),
                string_views(r@) == dedup_first(in_order.take(k as int)),
            decreases order@.len() - k,
        {
            let group = entries[order[k]].name.as_str();
            let seen = contains_text(&r, group);
            let ghost before = r@;
            if !seen {
                r.push(string_of(group));
            }
            proof {
                let prefix = in_order.take(k + 1);
                assert(prefix.drop_last() =~= in_order.take(k as int));
                assert(prefix.last() == group@);
                assert(string_views(r@) =~= dedup_first(prefix));
            }
            k += 1;
        }
        proof {
            assert(in_order.take(k as int) =~= in_order);
            assert(is_sorted_order(group_sort_keys(group_entries(*self), unsorted), order@));
        }
        r
    }
}

/// Each of `s` is at most the next, in the order of text.
pub open spec fn nondecreasing(s: Seq<Seq<char>>) -> bool {
    forall|i: int, j: int| 0 <= i < j < s.len() ==> text_less(#[trigger] s[i], #[trigger] s[j]) || s[i] == s[j]
}

proof fn lemma_dedup_contains(s: Seq<Seq<char>>, x: Seq<char>)
    ensures
        dedup_first(s).contains(x) <==> s.contains(x),
    decreases s.len(),
{
    if s.len() > 0 {
        let front = s.drop_last();
        lemma_dedup_contains(front, x);
        lemma_dedup_contains(front, s.last());
        if s.contains(x) && x != s.last() {
            let k = choose|k: int| 0 <= k < s.len() && s[k] == x;
            assert(front[k] == x);
        }
        if front.contains(x) {
            let k = choose|k: int| 0 <= k < front.len() && front[k] == x;
            assert(s[k] == x);
        }
        if x == s.last() {
            assert(s[s.len() - 1] == x);
        }
        let d = dedup_first(front);
        if !d.contains(s.last()) {
            let e = d.push(s.last());
            if e.contains(x) {
                let k = choose|k: int| 0 <= k < e.len() && e[k] == x;
                if k < d.len() {
                    assert(d[k] == x);
                }
            }
            if d.contains(x) {
                let k = choose|k: int| 0 <= k < d.len() && d[k] == x;
                assert(e[k] == x);
            }
            if x == s.last() {
                assert(e[e.len() - 1] == x);
            }
        }
    }
}

proof fn lemma_dedup_increasing(s: Seq<Seq<char>>)
    requires
        nondecreasing(s),
    ensures
        forall|i: int, j: int|
            0 <= i < j < dedup_first(s).len() ==> text_less(
                #[trigger] dedup_first(s)[i],
                #[trigger] dedup_first(s)[j],
            ),
    decreases s.len(),
{
    if s.len() > 0 {
        let front = s.drop_last();
        assert(nondecreasing(front)) by {
            assert forall|i: int, j: int| 0 <= i < j < front.len() implies text_less(
                #[trigger] front[i],
                #[trigger] front[j],
            ) || front[i] == front[j] by {
                assert(front[i] == s[i] && front[j] == s[j]);
            }
        }
        lemma_dedup_increasing(front);
        let d = dedup_first(front);
        if !d.contains(s.last()) {
            assert forall|i: int| 0 <= i < d.len() implies text_less(#[trigger] d[i], s.last()) by {
                lemma_dedup_contains(front, d[i]);
                assert(d.contains(d[i]));
                let k = choose|k: int| 0 <= k < front.len() && front[k] == d[i];
                assert(s[k] == d[i]);
                assert(text_less(s[k], s[s.len() - 1]) || s[k] == s[s.len() - 1]);
            }
            let e = d.push(s.last());
            assert forall|i: int, j: int| 0 <= i < j < e.len() implies text_less(
                #[trigger] e[i],
                #[trigger] e[j],
            ) by {
                if j == e.len() - 1 {
                    assert(e[i] == d[i]);
                } else {
                    assert(e[i] == d[i] && e[j] == d[j]);
                }
            }
        }
    }
}

/// Where listings are sorted by name, the groups come out in increasing
/// order of name, each once, and they are exactly the groups of the public
/// recipes and modules.
pub proof fn lemma_sorted_groups(entries: Seq<KeyView>, order: Seq<usize>)
    requires
        is_sorted_order(group_sort_keys(entries, false), order),
    ensures
        forall|i: int, j: int|
            0 <= i < j < dedup_first(groups_in_order(entries, order)).len() ==> text_less(
                #[trigger] dedup_first(groups_in_order(entries, order))[i],
                #[trigger] dedup_first(groups_in_order(entries, order))[j],
            ),
        forall|g: Seq<char>|
            #[trigger] dedup_first(groups_in_order(entries, order)).contains(g) <==> exists|p: int|
                0 <= p < entries.len() && (#[trigger] entries[p]).2 == g,
{
    let keys = group_sort_keys(entries, false);
    let s = groups_in_order(entries, order);
    assert forall|i: int, j: int| 0 <= i < j < s.len() implies text_less(
        #[trigger] s[i],
        #[trigger] s[j],
    ) || s[i] == s[j] by {
        assert(position_less(keys, order[i] as int, order[j] as int));
        assert(order.contains(order[i]) && order.contains(order[j]));
    }
    lemma_dedup_increasing(s);
    assert forall|g: Seq<char>|
        #[trigger] dedup_first(s).contains(g) <==> exists|p: int|
            0 <= p < entries.len() && (#[trigger] entries[p]).2 == g by {
        lemma_dedup_contains(s, g);
        if s.contains(g) {
            let i = choose|i: int| 0 <= i < s.len() && s[i] == g;
            assert(order.contains(order[i]));
            assert(entries[order[i] as int].2 == g);
        }
        if exists|p: int| 0 <= p < entries.len() && (#[trigger] entries[p]).2 == g {
            let p = choose|p: int| 0 <= p < entries.len() && (#[trigger] entries[p]).2 == g;
            assert(order.contains(p as usize));
            let i = choose|i: int| 0 <= i < order.len() && order[i] == p as usize;
            assert(s[i] == g);
        }
    }
}

} // verus!
