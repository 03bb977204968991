//! The weekly planner: assigning recipes to meal slots, and turning the week's
//! plan into a grocery list in which each ingredient (by case-insensitive name
//! and unit) appears once.

use vstd::prelude::*;
use vstd::string::StringExecFns;
use crate::ids::{fresh_id, is_fresh_id_shape};
use crate::model::{GroceryItem, GroceryItemView, IngredientItem, IngredientItemView, MealPlanEntry, MealPlanEntryView, Recipe, RecipeView};
use crate::recipe_book::{find_recipe, lemma_recipe_index, recipe_index};
use crate::text::{same_text, lemma_text_lt_irreflexive, lemma_text_lt_total, lemma_text_lt_transitive, decimal, decimal_text, lowercase, lowercase_text, text_less, text_lt, trim_text, trimmed};

verus! {

/// The ingredients that the week's plan calls for, plan entry by plan entry and
/// in each recipe's order; an entry whose recipe is not in the book adds none.
pub open spec fn planned(plans: Seq<MealPlanEntryView>, recipes: Seq<RecipeView>) -> Seq<IngredientItemView>
    decreases plans.len(),
{
    if plans.len() == 0 {
        Seq::empty()
    } else {
        let before = planned(plans.drop_last(), recipes);
        let p = recipe_index(recipes, plans.last().recipe_id);
        if p < recipes.len() {
            before + recipes[p].ingredients
        } else {
            before
        }
    }
}

/// Every ingredient of every planned meal, in plan order.
pub fn planned_ingredients(plans: &Vec<MealPlanEntry>, recipes: &Vec<Recipe>) -> (r: Vec<IngredientItem>)
    ensures
        r.deep_view() == planned(plans.deep_view(), recipes.deep_view()),
{
    let ghost pv = plans.deep_view();
    let ghost rv = recipes.deep_view();
    let mut r: Vec<IngredientItem> = Vec::new();
    for i in 0..plans.len()
        invariant
            pv == plans.deep_view(),
            rv == recipes.deep_view(),
            r.deep_view() == planned(pv.take(i as int), rv),
    {
        assert(pv.take(i + 1).drop_last() =~= pv.take(i as int));
        assert(pv.take(i + 1).last() == plans@[i as int]@);
        proof {
            lemma_recipe_index(rv, pv[i as int].recipe_id);
        }
        let found = find_recipe(recipes, plans[i].recipe_id.as_str());
        match found {
            Some(p) => {
                let ghost before = r.deep_view();
                let ings = &recipes[p].ingredients;
                assert(rv[p as int].ingredients == ings.deep_view());
                for j in 0..ings.len()
                    invariant
                        r.deep_view() == before + ings.deep_view().take(j as int),
                {
                    let ghost prev = r.deep_view();
                    r.push(ings[j].clone());
                    assert(r.deep_view() =~= prev.push(ings@[j as int]@));
                    assert(ings.deep_view().take(j + 1) =~= ings.deep_view().take(j as int).push(ings@[j as int]@));
                    assert(r.deep_view() =~= before + ings.deep_view().take(j + 1));
                }
                assert(ings.deep_view().take(ings.len() as int) =~= ings.deep_view());
                assert(r.deep_view() == planned(pv.take(i + 1), rv));
            },
            None => {},
        }
    }
    assert(pv.take(plans.len() as int) =~= pv);
    r
}


/// One line of the aggregated grocery list: the ingredients of the plan that
/// share a case-insensitive, trimmed name and unit.
pub struct AggregatedItem {
    /// Trimmed name, as first written in the plan.
    pub name: String,
    /// Trimmed unit, as first written in the plan.
    pub unit: String,
    /// Lowercased trimmed name: the first half of the grouping key.
    pub name_key: String,
    /// Lowercased trimmed unit: the second half of the grouping key.
    pub unit_key: String,
    /// Whether any of the grouped ingredients is a pantry staple.
    pub is_pantry_staple: bool,
    /// Positions, in increasing order, of the grouped ingredients in the
    /// planned-ingredient list; their amounts add up to the line's amount.
    pub sources: Vec<usize>,
}

pub struct AggregatedItemView {
    pub name: Seq<char>,
    pub unit: Seq<char>,
    pub name_key: Seq<char>,
    pub unit_key: Seq<char>,
    pub is_pantry_staple: bool,
    pub sources: Seq<usize>,
}

impl View for AggregatedItem {
    type V = AggregatedItemView;

    open spec fn view(&self) -> AggregatedItemView {
        AggregatedItemView {
            name: self.name@,
            unit: self.unit@,
            name_key: self.name_key@,
            unit_key: self.unit_key@,
            is_pantry_staple: self.is_pantry_staple,
            sources: self.sources@,
        }
    }
}

impl DeepView for AggregatedItem {
    type V = AggregatedItemView;

    open spec fn deep_view(&self) -> AggregatedItemView {
        self@
    }
}

/// First half of the grouping key of an ingredient.
pub open spec fn name_key_of(ing: IngredientItemView) -> Seq<char> {
    lowercase(trimmed(ing.name))
}

/// Second half of the grouping key of an ingredient.
pub open spec fn unit_key_of(ing: IngredientItemView) -> Seq<char> {
    lowercase(trimmed(ing.unit))
}

/// The ingredient belongs to the line `g`.
pub open spec fn same_key(ing: IngredientItemView, g: AggregatedItemView) -> bool {
    name_key_of(ing) == g.name_key && unit_key_of(ing) == g.unit_key
}

/// `g` is the line that groups the ingredients among the first `upto` of
/// `ings` that have its key: it lists exactly their positions, in increasing
/// order, takes its name and unit from the first of them, and is a staple when
/// any of them is.
pub open spec fn line_of(ings: Seq<IngredientItemView>, g: AggregatedItemView, upto: int) -> bool {
    &&& g.sources.len() > 0
    &&& forall|j: int| 0 <= j < g.sources.len()
        ==> #[trigger] g.sources[j] < upto && same_key(ings[g.sources[j] as int], g)
    &&& forall|j1: int, j2: int| 0 <= j1 < j2 < g.sources.len()
        ==> #[trigger] g.sources[j1] < #[trigger] g.sources[j2]
    &&& forall|i: int| 0 <= i < upto && #[trigger] same_key(ings[i], g)
        ==> g.sources.contains(i as usize)
    &&& g.name == trimmed(ings[g.sources[0] as int].name)
    &&& g.unit == trimmed(ings[g.sources[0] as int].unit)
    &&& g.is_pantry_staple == (exists|j: int| 0 <= j < g.sources.len()
        && #[trigger] ings[g.sources[j] as int].is_pantry_staple)
}

/// The order of the grocery list: by lowercased name, and lines with the same
/// lowercased name in the order in which the plan first mentions them.
pub open spec fn listed_before(a: AggregatedItemView, b: AggregatedItemView) -> bool {
    ||| text_lt(a.name_key, b.name_key)
    ||| (a.name_key == b.name_key && a.sources[0] < b.sources[0])
}

/// Some line holds the ingredient at `i`.
pub open spec fn covered(ings: Seq<IngredientItemView>, groups: Seq<AggregatedItemView>, i: int) -> bool {
    exists|a: int| 0 <= a < groups.len() && #[trigger] same_key(ings[i], groups[a])
}

/// `groups` is the aggregated grocery list of `ings`: one line per key, every
/// ingredient in the line of its key, lines in `listed_before` order.
pub open spec fn aggregation_of(ings: Seq<IngredientItemView>, groups: Seq<AggregatedItemView>) -> bool {
    &&& forall|a: int| 0 <= a < groups.len() ==> line_of(ings, #[trigger] groups[a], ings.len() as int)
    &&& forall|a: int, b: int| 0 <= a < b < groups.len()
        ==> listed_before(#[trigger] groups[a], #[trigger] groups[b])
    &&& forall|i: int| 0 <= i < ings.len() ==> #[trigger] covered(ings, groups, i)
}

/// No two lines share a key.
pub open spec fn distinct_keys(groups: Seq<AggregatedItemView>) -> bool {
    forall|a: int, b: int| 0 <= a < groups.len() && 0 <= b < groups.len() && a != b
        ==> !(#[trigger] groups[a].name_key == #[trigger] groups[b].name_key
            && groups[a].unit_key == groups[b].unit_key)
}

/// Lines in the order in which the plan first mentions their key.
spec fn first_mention_order(ings: Seq<IngredientItemView>, groups: Seq<AggregatedItemView>, upto: int) -> bool {
    &&& forall|a: int| 0 <= a < groups.len() ==> line_of(ings, #[trigger] groups[a], upto)
    &&& forall|a: int, b: int| 0 <= a < b < groups.len()
        ==> (#[trigger] groups[a]).sources[0] < (#[trigger] groups[b]).sources[0]
    &&& forall|i: int| 0 <= i < upto ==> #[trigger] covered(ings, groups, i)
    &&& distinct_keys(groups)
}

/// Adding the ingredient at `i` to the existing line `a` of its key.
proof fn lemma_join_line(
    ings: Seq<IngredientItemView>,
    groups: Seq<AggregatedItemView>,
    i: usize,
    a: int,
    g: AggregatedItemView,
)
    requires
        i < ings.len(),
        0 <= a < groups.len(),
        first_mention_order(ings, groups, i as int),
        same_key(ings[i as int], groups[a]),
        g == (AggregatedItemView {
            sources: groups[a].sources.push(i as usize),
            is_pantry_staple: groups[a].is_pantry_staple || ings[i as int].is_pantry_staple,
            ..groups[a]
        }),
    ensures
        first_mention_order(ings, groups.update(a, g), i + 1),
{
    let old_g = groups[a];
    let nv = groups.update(a, g);
    assert(line_of(ings, old_g, i as int));
    assert forall|j: int| 0 <= j < g.sources.len() implies
        #[trigger] g.sources[j] < i + 1 && same_key(ings[g.sources[j] as int], g) by {
        if j < old_g.sources.len() {
            assert(old_g.sources[j] == g.sources[j]);
        }
    }
    assert forall|j1: int, j2: int| 0 <= j1 < j2 < g.sources.len() implies
        #[trigger] g.sources[j1] < #[trigger] g.sources[j2] by {
        assert(old_g.sources[j1] == g.sources[j1]);
        assert(old_g.sources[j1] < i);
        if j2 < old_g.sources.len() {
            assert(old_g.sources[j2] == g.sources[j2]);
            assert(old_g.sources[j1] < old_g.sources[j2]);
        }
    }
    assert forall|k: int| 0 <= k < i + 1 && #[trigger] same_key(ings[k], g)
        implies g.sources.contains(k as usize) by {
        if k < i {
            assert(same_key(ings[k], old_g));
            assert(old_g.sources.contains(k as usize));
            let w = choose|w: int| 0 <= w < old_g.sources.len() && old_g.sources[w] == k as usize;
            assert(g.sources[w] == k as usize);
        } else {
            assert(g.sources[old_g.sources.len() as int] == i);
        }
    }
    assert(g.sources[0] == old_g.sources[0]);
    if g.is_pantry_staple {
        if !old_g.is_pantry_staple {
            assert(ings[g.sources[old_g.sources.len() as int] as int].is_pantry_staple);
        } else {
            let w = choose|w: int| 0 <= w < old_g.sources.len()
                && #[trigger] ings[old_g.sources[w] as int].is_pantry_staple;
            assert(g.sources[w] == old_g.sources[w]);
        }
    } else {
        assert forall|j: int| 0 <= j < g.sources.len() implies
            !#[trigger] ings[g.sources[j] as int].is_pantry_staple by {
            if j < old_g.sources.len() {
                assert(g.sources[j] == old_g.sources[j]);
            }
        }
    }
    assert(line_of(ings, g, i + 1));
    assert forall|b: int| 0 <= b < nv.len() implies line_of(ings, #[trigger] nv[b], i + 1) by {
        if b != a {
            assert(nv[b] == groups[b]);
            assert(line_of(ings, groups[b], i as int));
            assert(!same_key(ings[i as int], groups[b]));
        }
    }
    assert forall|b: int, c: int| 0 <= b < c < nv.len()
        implies (#[trigger] nv[b]).sources[0] < (#[trigger] nv[c]).sources[0] by {
        assert(groups[b].sources[0] < groups[c].sources[0]);
    }
    assert forall|k: int| 0 <= k < i + 1 implies #[trigger] covered(ings, nv, k) by {
        if k < i {
            assert(covered(ings, groups, k));
            let b = choose|b: int| 0 <= b < groups.len() && #[trigger] same_key(ings[k], groups[b]);
            assert(same_key(ings[k], nv[b]));
        } else {
            assert(same_key(ings[k], nv[a]));
        }
    }
    assert forall|b: int, c: int| 0 <= b < nv.len() && 0 <= c < nv.len() && b != c
        implies !(#[trigger] nv[b].name_key == #[trigger] nv[c].name_key
            && nv[b].unit_key == nv[c].unit_key) by {
        assert(!(groups[b].name_key == groups[c].name_key && groups[b].unit_key == groups[c].unit_key));
    }
}

/// Opening a new line for the ingredient at `i`, whose key no line has yet.
proof fn lemma_open_line(
    ings: Seq<IngredientItemView>,
    groups: Seq<AggregatedItemView>,
    i: usize,
    g: AggregatedItemView,
)
    requires
        i < ings.len(),
        first_mention_order(ings, groups, i as int),
        forall|b: int| 0 <= b < groups.len()
            ==> !(#[trigger] groups[b].name_key == name_key_of(ings[i as int]) && groups[b].unit_key == unit_key_of(ings[i as int])),
        g == (AggregatedItemView {
            name: trimmed(ings[i as int].name),
            unit: trimmed(ings[i as int].unit),
            name_key: name_key_of(ings[i as int]),
            unit_key: unit_key_of(ings[i as int]),
            is_pantry_staple: ings[i as int].is_pantry_staple,
            sources: seq![i as usize],
        }),
    ensures
        first_mention_order(ings, groups.push(g), i + 1),
{
    let nv = groups.push(g);
    assert(g.sources[0] == i);
    assert forall|k: int| 0 <= k < i + 1 && #[trigger] same_key(ings[k], g)
        implies g.sources.contains(k as usize) by {
        if k < i {
            assert(covered(ings, groups, k));
            let b = choose|b: int| 0 <= b < groups.len() && #[trigger] same_key(ings[k], groups[b]);
            assert(groups[b].name_key == name_key_of(ings[i as int]));
        }
    }
    if g.is_pantry_staple {
        assert(ings[g.sources[0] as int].is_pantry_staple);
    }
    assert(line_of(ings, g, i + 1));
    assert forall|b: int| 0 <= b < nv.len() implies line_of(ings, #[trigger] nv[b], i + 1) by {
        if b < groups.len() {
            assert(nv[b] == groups[b]);
            assert(line_of(ings, groups[b], i as int));
            assert(!same_key(ings[i as int], groups[b]));
        }
    }
    assert forall|b: int, c: int| 0 <= b < c < nv.len()
        implies (#[trigger] nv[b]).sources[0] < (#[trigger] nv[c]).sources[0] by {
        assert(line_of(ings, groups[b], i as int));
        if c < groups.len() {
            assert(groups[b].sources[0] < groups[c].sources[0]);
        }
    }
    assert forall|k: int| 0 <= k < i + 1 implies #[trigger] covered(ings, nv, k) by {
        if k < i {
            assert(covered(ings, groups, k));
            let b = choose|b: int| 0 <= b < groups.len() && #[trigger] same_key(ings[k], groups[b]);
            assert(nv[b] == groups[b]);
            assert(same_key(ings[k], nv[b]));
        } else {
            assert(nv[groups.len() as int] == g);
            assert(same_key(ings[k], nv[groups.len() as int]));
        }
    }
    assert forall|b: int, c: int| 0 <= b < nv.len() && 0 <= c < nv.len() && b != c
        implies !(#[trigger] nv[b].name_key == #[trigger] nv[c].name_key
            && nv[b].unit_key == nv[c].unit_key) by {
        if b < groups.len() && c < groups.len() {
            assert(!(groups[b].name_key == groups[c].name_key && groups[b].unit_key == groups[c].unit_key));
        } else if b < groups.len() {
            assert(nv[c] == g);
        } else {
            assert(nv[b] == g);
        }
    }
}

/// Groups the ingredients by key, lines in order of first mention.
fn group_by_key(ings: &Vec<IngredientItem>) -> (r: Vec<AggregatedItem>)
    ensures
        first_mention_order(ings.deep_view(), r.deep_view(), ings.len() as int),
{
    let ghost iv = ings.deep_view();
    let mut found: Vec<AggregatedItem> = Vec::new();
    proof {
        assert(found.deep_view() =~= Seq::<AggregatedItemView>::empty());
    }
    for i in 0..ings.len()
        invariant
            iv == ings.deep_view(),
            first_mention_order(iv, found.deep_view(), i as int),
    {
        let name = trim_text(ings[i].name.as_str());
        let unit = trim_text(ings[i].unit.as_str());
        let nk = lowercase_text(name.as_str());
        let uk = lowercase_text(unit.as_str());
        let staple = ings[i].is_pantry_staple;
        assert(iv[i as int] == ings@[i as int]@);
        assert(name_key_of(iv[i as int]) == nk@);
        assert(unit_key_of(iv[i as int]) == uk@);
        let ghost fv = found.deep_view();
        let mut a: usize = 0;
        let mut hit = false;
        while a < found.len()
            invariant
                0 <= a <= found.len(),
                fv == found.deep_view(),
                !hit ==> forall|b: int| 0 <= b < a ==> !(#[trigger] fv[b].name_key == nk@ && fv[b].unit_key == uk@),
                hit ==> a < found.len() && fv[a as int].name_key == nk@ && fv[a as int].unit_key == uk@,
            ensures
                !hit ==> a == found.len(),
                !hit ==> forall|b: int| 0 <= b < found.len() ==> !(#[trigger] fv[b].name_key == nk@ && fv[b].unit_key == uk@),
                hit ==> a < found.len() && fv[a as int].name_key == nk@ && fv[a as int].unit_key == uk@,
            decreases found.len() - a + (if hit { 0int } else { 1int }),
        {
            assert(fv[a as int] == found@[a as int]@);
            if found[a].name_key == nk && found[a].unit_key == uk {
                hit = true;
                break;
            }
            a = a + 1;
        }
        if hit {
            let mut g = found.remove(a);
            g.sources.push(i);
            g.is_pantry_staple = g.is_pantry_staple || staple;
            found.insert(a, g);
            proof {
                assert(found.deep_view() =~= fv.update(a as int, g@));
                lemma_join_line(iv, fv, i, a as int, g@);
            }
        } else {
            let mut sources: Vec<usize> = Vec::new();
            sources.push(i);
            let g = AggregatedItem {
                name,
                unit,
                name_key: nk,
                unit_key: uk,
                is_pantry_staple: staple,
                sources,
            };
            found.push(g);
            proof {
                assert(found.deep_view() =~= fv.push(g@));
                assert(g@.sources =~= seq![i as usize]);
                lemma_open_line(iv, fv, i, g@);
            }
        }
    }
    found
}


/// Lines in `listed_before` order.
pub open spec fn in_list_order(lines: Seq<AggregatedItemView>) -> bool {
    forall|a: int, b: int| 0 <= a < b < lines.len()
        ==> listed_before(#[trigger] lines[a], #[trigger] lines[b])
}

/// Inserting a line at the first position whose name comes after its own
/// keeps the list in order, when the line was mentioned after all others.
proof fn lemma_insert_in_order(lines: Seq<AggregatedItemView>, p: int, g: AggregatedItemView)
    requires
        0 <= p <= lines.len(),
        in_list_order(lines),
        forall|q: int| 0 <= q < p ==> !text_lt(g.name_key, (#[trigger] lines[q]).name_key),
        p < lines.len() ==> text_lt(g.name_key, lines[p].name_key),
        forall|q: int| 0 <= q < lines.len() ==> (#[trigger] lines[q]).sources[0] < g.sources[0],
    ensures
        in_list_order(lines.insert(p, g)),
{
    let ns = lines.insert(p, g);
    assert forall|a: int, b: int| 0 <= a < b < ns.len()
        implies listed_before(#[trigger] ns[a], #[trigger] ns[b]) by {
        if a != p && b != p {
            let a1 = if a < p { a } else { a - 1 };
            let b1 = if b < p { b } else { b - 1 };
            assert(ns[a] == lines[a1] && ns[b] == lines[b1]);
            assert(listed_before(lines[a1], lines[b1]));
        } else if a == p {
            let b1 = b - 1;
            assert(ns[b] == lines[b1]);
            if b1 > p {
                assert(listed_before(lines[p], lines[b1]));
                if text_lt(lines[p].name_key, lines[b1].name_key) {
                    lemma_text_lt_transitive(g.name_key, lines[p].name_key, lines[b1].name_key);
                }
            }
        } else {
            assert(ns[a] == lines[a]);
            assert(!text_lt(g.name_key, lines[a].name_key));
            if lines[a].name_key != g.name_key {
                lemma_text_lt_total(lines[a].name_key, g.name_key);
            }
        }
    }
}

/// Puts the lines in `listed_before` order; the lines come in order of first
/// mention, and lines with the same name keep that order.
fn order_lines(lines: Vec<AggregatedItem>) -> (r: Vec<AggregatedItem>)
    requires
        forall|a: int| 0 <= a < lines.len() ==> (#[trigger] lines@[a])@.sources.len() > 0,
        forall|a: int, b: int| 0 <= a < b < lines.len()
            ==> (#[trigger] lines@[a])@.sources[0] < (#[trigger] lines@[b])@.sources[0],
    ensures
        in_list_order(r.deep_view()),
        r.len() == lines.len(),
        forall|a: int| 0 <= a < r.len() ==> lines.deep_view().contains(#[trigger] r.deep_view()[a]),
        forall|a: int| 0 <= a < lines.len() ==> r.deep_view().contains(#[trigger] lines.deep_view()[a]),
{
    let ghost orig = lines.deep_view();
    let mut rest = lines;
    let mut out: Vec<AggregatedItem> = Vec::new();
    let ghost mut d: int = 0;
    proof {
        assert(rest.deep_view() =~= orig.subrange(0, orig.len() as int));
        assert(out.deep_view() =~= Seq::<AggregatedItemView>::empty());
    }
    while rest.len() > 0
        invariant
            0 <= d <= orig.len(),
            forall|a: int| 0 <= a < orig.len() ==> (#[trigger] orig[a]).sources.len() > 0,
            forall|a: int, b: int| 0 <= a < b < orig.len()
                ==> (#[trigger] orig[a]).sources[0] < (#[trigger] orig[b]).sources[0],
            rest.deep_view() == orig.subrange(d, orig.len() as int),
            out.len() == d,
            in_list_order(out.deep_view()),
            forall|q: int| 0 <= q < out.len()
                ==> exists|b: int| 0 <= b < d && orig[b] == #[trigger] out.deep_view()[q],
            forall|b: int| 0 <= b < d ==> out.deep_view().contains(#[trigger] orig[b]),
        decreases rest.len(),
    {
        let ghost rv = rest.deep_view();
        assert(rv.len() > 0);
        assert(orig.subrange(d, orig.len() as int)[0] == orig[d]);
        assert(rv[0] == orig[d]);
        let ghost old_rest = rest@;
        let g = rest.remove(0);
        let ghost gv = g@;
        let ghost ov = out.deep_view();
        assert(old_rest[0]@ == rv[0]);
        assert(gv == orig[d]);
        let mut p: usize = 0;
        while p < out.len() && !text_less(g.name_key.as_str(), out[p].name_key.as_str())
            invariant
                0 <= p <= out.len(),
                ov == out.deep_view(),
                gv == g@,
                forall|q: int| 0 <= q < p ==> !text_lt(gv.name_key, (#[trigger] ov[q]).name_key),
            decreases out.len() - p,
        {
            assert(ov[p as int] == out@[p as int]@);
            p = p + 1;
        }
        proof {
            if p < out.len() {
                assert(ov[p as int] == out@[p as int]@);
            }
            assert forall|q: int| 0 <= q < ov.len() implies (#[trigger] ov[q]).sources[0] < gv.sources[0] by {
                let b = choose|b: int| 0 <= b < d && orig[b] == ov[q];
                assert(orig[b].sources[0] < orig[d].sources[0]);
            }
            lemma_insert_in_order(ov, p as int, gv);
        }
        out.insert(p, g);
        proof {
            let nv = out.deep_view();
            assert(nv =~= ov.insert(p as int, gv));
            assert(rest@ == old_rest.remove(0));
            assert forall|k: int| 0 <= k < rest.deep_view().len()
                implies rest.deep_view()[k] == orig.subrange(d + 1, orig.len() as int)[k] by {
                assert(rest@[k] == old_rest[k + 1]);
                assert(rv[k + 1] == old_rest[k + 1]@);
            }
            assert(rest.deep_view() =~= orig.subrange(d + 1, orig.len() as int));
            assert forall|q: int| 0 <= q < nv.len()
                implies exists|b: int| 0 <= b < d + 1 && orig[b] == #[trigger] nv[q] by {
                if q < p {
                    assert(nv[q] == ov[q]);
                } else if q == p {
                    assert(orig[d] == nv[q]);
                } else {
                    assert(nv[q] == ov[q - 1]);
                }
            }
            assert forall|b: int| 0 <= b < d + 1 implies nv.contains(#[trigger] orig[b]) by {
                if b < d {
                    assert(ov.contains(orig[b]));
                    let q = choose|q: int| 0 <= q < ov.len() && ov[q] == orig[b];
                    if q < p {
                        assert(nv[q] == ov[q]);
                    } else {
                        assert(nv[q + 1] == ov[q]);
                    }
                } else {
                    assert(nv[p as int] == orig[b]);
                }
            }
            d = d + 1;
        }
    }
    proof {
        assert(d == orig.len());
        assert forall|a: int| 0 <= a < out.len() implies orig.contains(#[trigger] out.deep_view()[a]) by {
            let b = choose|b: int| 0 <= b < d && orig[b] == out.deep_view()[a];
        }
    }
    out
}


/// The grocery list of a week's planned ingredients: one line per
/// case-insensitive trimmed name and unit, listing where its ingredients
/// stand, taking its name and unit from the first of them, marked as a staple
/// when any of them is one, and lines sorted by lowercased name.
pub fn aggregate_ingredients(ings: &Vec<IngredientItem>) -> (r: Vec<AggregatedItem>)
    ensures
        aggregation_of(ings.deep_view(), r.deep_view()),
{
    let ghost iv = ings.deep_view();
    let found = group_by_key(ings);
    let ghost fv = found.deep_view();
    proof {
        assert forall|a: int| 0 <= a < found.len() implies (#[trigger] found@[a])@.sources.len() > 0 by {
            assert(fv[a] == found@[a]@);
            assert(line_of(iv, fv[a], iv.len() as int));
        }
        assert forall|a: int, b: int| 0 <= a < b < found.len()
            implies (#[trigger] found@[a])@.sources[0] < (#[trigger] found@[b])@.sources[0] by {
            assert(fv[a] == found@[a]@ && fv[b] == found@[b]@);
        }
    }
    let r = order_lines(found);
    proof {
        let rv = r.deep_view();
        assert forall|a: int| 0 <= a < rv.len() implies line_of(iv, #[trigger] rv[a], iv.len() as int) by {
            assert(fv.contains(rv[a]));
            let b = choose|b: int| 0 <= b < fv.len() && fv[b] == rv[a];
        }
        assert forall|i: int| 0 <= i < iv.len() implies #[trigger] covered(iv, rv, i) by {
            assert(covered(iv, fv, i));
            let b = choose|b: int| 0 <= b < fv.len() && #[trigger] same_key(iv[i], fv[b]);
            assert(rv.contains(fv[b]));
            let q = choose|q: int| 0 <= q < rv.len() && rv[q] == fv[b];
            assert(same_key(iv[i], rv[q]));
        }
    }
    r
}

/// No two lines of the aggregated grocery list share a name and unit.
pub proof fn lemma_aggregation_distinct_keys(ings: Seq<IngredientItemView>, groups: Seq<AggregatedItemView>)
    requires
        aggregation_of(ings, groups),
    ensures
        distinct_keys(groups),
{
    assert forall|a: int, b: int| 0 <= a < groups.len() && 0 <= b < groups.len() && a != b
        implies !(#[trigger] groups[a].name_key == #[trigger] groups[b].name_key
            && groups[a].unit_key == groups[b].unit_key) by {
        if groups[a].name_key == groups[b].name_key && groups[a].unit_key == groups[b].unit_key {
            let (x, y) = if a < b { (groups[a], groups[b]) } else { (groups[b], groups[a]) };
            assert(listed_before(x, y));
            lemma_text_lt_irreflexive(x.name_key);
            assert(x.sources[0] < y.sources[0]);
            assert(line_of(ings, x, ings.len() as int));
            assert(line_of(ings, y, ings.len() as int));
            let k = x.sources[0] as int;
            assert(same_key(ings[k], x));
            assert(same_key(ings[k], y));
            assert(y.sources.contains(k as usize));
            let w = choose|w: int| 0 <= w < y.sources.len() && y.sources[w] == k as usize;
            if w > 0 {
                assert(y.sources[0] < y.sources[w]);
            }
        }
    }
}

/// Every planned ingredient stands in exactly one line of the aggregated
/// grocery list, the line of its name and unit.
pub proof fn lemma_each_ingredient_in_one_line(
    ings: Seq<IngredientItemView>,
    groups: Seq<AggregatedItemView>,
    i: int,
)
    requires
        aggregation_of(ings, groups),
        0 <= i < ings.len(),
    ensures
        exists|a: int| 0 <= a < groups.len() && (#[trigger] groups[a]).sources.contains(i as usize),
        forall|a: int, b: int|
            0 <= a < groups.len() && 0 <= b < groups.len()
            && (#[trigger] groups[a]).sources.contains(i as usize)
            && (#[trigger] groups[b]).sources.contains(i as usize) ==> a == b,
{
    lemma_aggregation_distinct_keys(ings, groups);
    assert(covered(ings, groups, i));
    let a = choose|a: int| 0 <= a < groups.len() && #[trigger] same_key(ings[i], groups[a]);
    assert(line_of(ings, groups[a], ings.len() as int));
    assert(groups[a].sources.contains(i as usize));
    assert forall|a1: int, b1: int|
        0 <= a1 < groups.len() && 0 <= b1 < groups.len()
        && (#[trigger] groups[a1]).sources.contains(i as usize)
        && (#[trigger] groups[b1]).sources.contains(i as usize) implies a1 == b1 by {
        assert(line_of(ings, groups[a1], ings.len() as int));
        assert(line_of(ings, groups[b1], ings.len() as int));
        let w1 = choose|w: int| 0 <= w < groups[a1].sources.len() && groups[a1].sources[w] == i as usize;
        let w2 = choose|w: int| 0 <= w < groups[b1].sources.len() && groups[b1].sources[w] == i as usize;
        assert(same_key(ings[groups[a1].sources[w1] as int], groups[a1]));
        assert(same_key(ings[groups[b1].sources[w2] as int], groups[b1]));
    }
}


/// The grocery item made from a line of the aggregated list and its total
/// amount: not bought yet, with a fresh id.
pub open spec fn grocery_from_line(line: AggregatedItemView, total_bits: u64, item: GroceryItemView) -> bool {
    &&& is_fresh_id_shape(item.id)
    &&& item.name == line.name
    &&& item.unit == line.unit
    &&& item.quantity_bits == total_bits
    &&& !item.bought
    &&& item.is_pantry_staple == line.is_pantry_staple
}

/// The grocery items of an aggregated list, `totals[a]` being the total amount
/// of line `a`; each item gets a fresh id and starts out not bought.
pub fn groceries_from_totals(lines: &Vec<AggregatedItem>, totals: &Vec<u64>) -> (r: Vec<GroceryItem>)
    requires
        totals.len() == lines.len(),
    ensures
        r.len() == lines.len(),
        forall|a: int| 0 <= a < r.len()
            ==> grocery_from_line(lines@[a]@, totals@[a], #[trigger] r@[a]@),
{
    let mut r: Vec<GroceryItem> = Vec::new();
    for a in 0..lines.len()
        invariant
            totals.len() == lines.len(),
            r.len() == a,
            forall|b: int| 0 <= b < a ==> grocery_from_line(lines@[b]@, totals@[b], #[trigger] r@[b]@),
    {
        let line = &lines[a];
        let item = GroceryItem {
            id: fresh_id(),
            name: line.name.clone(),
            quantity_bits: totals[a],
            unit: line.unit.clone(),
            bought: false,
            is_pantry_staple: line.is_pantry_staple,
        };
        r.push(item);
    }
    r
}

/// The notice shown once the grocery list has been generated.
pub fn aggregation_notice(count: usize) -> (r: String)
    ensures
        r@ == "Aggregated "@ + decimal(count as nat) + " unique items into Grocery List."@,
{
    let n = decimal_text(count as u64);
    let r = String::from_str("Aggregated ").concat(n.as_str()).concat(" unique items into Grocery List.");
    r
}


/// The days of the week, in planner order.
pub const DAYS: [&'static str; 7] = ["Monday", "Tuesday", "Wednesday", "Thursday", "Friday", "Saturday", "Sunday"];

/// The meal slots of a day, in planner order.
pub const MEAL_TYPES: [&'static str; 3] = ["Breakfast", "Lunch", "Dinner"];

/// The entry fills the slot `day`, `meal_type`.
pub open spec fn in_slot(e: MealPlanEntryView, day: Seq<char>, meal_type: Seq<char>) -> bool {
    e.day == day && e.meal_type == meal_type
}

/// The plan with every entry of the slot removed, other entries in order.
pub open spec fn without_slot(plans: Seq<MealPlanEntryView>, day: Seq<char>, meal_type: Seq<char>) -> Seq<MealPlanEntryView>
    decreases plans.len(),
{
    if plans.len() == 0 {
        Seq::empty()
    } else {
        let kept = without_slot(plans.drop_last(), day, meal_type);
        if in_slot(plans.last(), day, meal_type) {
            kept
        } else {
            kept.push(plans.last())
        }
    }
}

/// The plan after choosing `recipe_id` for the slot: the slot's entries are
/// removed, and when `recipe_id` is not empty and names a recipe of the book,
/// an entry for that recipe, with id `entry_id`, is added at the end.
pub open spec fn assigned(
    plans: Seq<MealPlanEntryView>,
    recipes: Seq<RecipeView>,
    day: Seq<char>,
    meal_type: Seq<char>,
    recipe_id: Seq<char>,
    entry_id: Seq<char>,
) -> Seq<MealPlanEntryView> {
    let kept = without_slot(plans, day, meal_type);
    let p = recipe_index(recipes, recipe_id);
    if recipe_id.len() > 0 && p < recipes.len() {
        kept.push(MealPlanEntryView {
            id: entry_id,
            day,
            meal_type,
            recipe_id: recipes[p].id,
            recipe_title: recipes[p].title,
        })
    } else {
        kept
    }
}

/// Puts `recipe_id` into a meal slot, with `entry_id` as the new entry's id.
pub fn assign_meal_with_id(
    plans: &Vec<MealPlanEntry>,
    recipes: &Vec<Recipe>,
    day: &str,
    meal_type: &str,
    recipe_id: &str,
    entry_id: String,
) -> (r: Vec<MealPlanEntry>)
    ensures
        r.deep_view() == assigned(plans.deep_view(), recipes.deep_view(), day@, meal_type@, recipe_id@, entry_id@),
{
    let ghost pv = plans.deep_view();
    let mut kept: Vec<MealPlanEntry> = Vec::new();
    for i in 0..plans.len()
        invariant
            pv == plans.deep_view(),
            kept.deep_view() == without_slot(pv.take(i as int), day@, meal_type@),
    {
        assert(pv.take(i + 1).drop_last() =~= pv.take(i as int));
        assert(pv.take(i + 1).last() == plans@[i as int]@);
        let e = &plans[i];
        let here = same_text(e.day.as_str(), day) && same_text(e.meal_type.as_str(), meal_type);
        if !here {
            let ghost before = kept.deep_view();
            kept.push(e.clone());
            assert(kept.deep_view() =~= before.push(e@));
        }
    }
    assert(pv.take(plans.len() as int) =~= pv);
    if !recipe_id.is_empty() {
        proof {
            lemma_recipe_index(recipes.deep_view(), recipe_id@);
        }
        match find_recipe(recipes, recipe_id) {
            Some(p) => {
                let recipe = &recipes[p];
                let entry = MealPlanEntry {
                    id: entry_id,
                    day: String::from_str(day),
                    meal_type: String::from_str(meal_type),
                    recipe_id: recipe.id.clone(),
                    recipe_title: recipe.title.clone(),
                };
                let ghost before = kept.deep_view();
                kept.push(entry);
                assert(kept.deep_view() =~= before.push(entry@));
            },
            None => {},
        }
    }
    kept
}

/// Puts `recipe_id` into a meal slot, replacing whatever the slot held; an
/// empty `recipe_id`, or one that names no recipe, clears the slot. The new
/// entry gets a fresh id.
pub fn assign_meal(
    plans: &Vec<MealPlanEntry>,
    recipes: &Vec<Recipe>,
    day: &str,
    meal_type: &str,
    recipe_id: &str,
) -> (r: Vec<MealPlanEntry>)
    ensures
        exists|id: Seq<char>| is_fresh_id_shape(id)
            && r.deep_view() == assigned(plans.deep_view(), recipes.deep_view(), day@, meal_type@, recipe_id@, id),
{
    let id = fresh_id();
    let ghost idv = id@;
    let r = assign_meal_with_id(plans, recipes, day, meal_type, recipe_id, id);
    assert(is_fresh_id_shape(idv));
    r
}

/// The recipe that the first entry of the slot names, if any.
pub open spec fn slot_recipe(plans: Seq<MealPlanEntryView>, day: Seq<char>, meal_type: Seq<char>) -> Option<Seq<char>>
    decreases plans.len(),
{
    if plans.len() == 0 {
        None
    } else {
        match slot_recipe(plans.drop_last(), day, meal_type) {
            Some(r) => Some(r),
            None => if in_slot(plans.last(), day, meal_type) {
                Some(plans.last().recipe_id)
            } else {
                None
            },
        }
    }
}

/// The recipe id shown as selected in a slot: that of its first entry, or the
/// empty string when the slot is free.
pub open spec fn selected_in(plans: Seq<MealPlanEntryView>, day: Seq<char>, meal_type: Seq<char>) -> Seq<char> {
    match slot_recipe(plans, day, meal_type) {
        Some(r) => r,
        None => Seq::empty(),
    }
}

proof fn lemma_slot_recipe_prefix(plans: Seq<MealPlanEntryView>, k: int, day: Seq<char>, meal_type: Seq<char>)
    requires
        0 <= k <= plans.len(),
        slot_recipe(plans.take(k), day, meal_type) is Some,
    ensures
        slot_recipe(plans, day, meal_type) == slot_recipe(plans.take(k), day, meal_type),
    decreases plans.len() - k,
{
    if k < plans.len() {
        assert(plans.take(k) =~= plans.drop_last().take(k));
        lemma_slot_recipe_prefix(plans.drop_last(), k, day, meal_type);
    } else {
        assert(plans.take(k) =~= plans);
    }
}

/// The recipe id selected in a slot (the first entry's), or the empty string.
pub fn selected_recipe_id(plans: &Vec<MealPlanEntry>, day: &str, meal_type: &str) -> (r: String)
    ensures
        r@ == selected_in(plans.deep_view(), day@, meal_type@),
{
    let ghost pv = plans.deep_view();
    for i in 0..plans.len()
        invariant
            pv == plans.deep_view(),
            slot_recipe(pv.take(i as int), day@, meal_type@) is None,
    {
        assert(pv.take(i + 1).drop_last() =~= pv.take(i as int));
        assert(pv.take(i + 1).last() == plans@[i as int]@);
        let e = &plans[i];
        if same_text(e.day.as_str(), day) && same_text(e.meal_type.as_str(), meal_type) {
            proof {
                lemma_slot_recipe_prefix(pv, i + 1, day@, meal_type@);
            }
            return e.recipe_id.clone();
        }
    }
    assert(pv.take(plans.len() as int) =~= pv);
    String::new()
}


proof fn lemma_without_slot_clears(plans: Seq<MealPlanEntryView>, day: Seq<char>, meal_type: Seq<char>)
    ensures
        forall|k: int| 0 <= k < without_slot(plans, day, meal_type).len()
            ==> !in_slot(#[trigger] without_slot(plans, day, meal_type)[k], day, meal_type)
                && plans.contains(without_slot(plans, day, meal_type)[k]),
    decreases plans.len(),
{
    if plans.len() > 0 {
        let rest = plans.drop_last();
        lemma_without_slot_clears(rest, day, meal_type);
        let w = without_slot(plans, day, meal_type);
        let wr = without_slot(rest, day, meal_type);
        assert forall|k: int| 0 <= k < w.len() implies !in_slot(#[trigger] w[k], day, meal_type) && plans.contains(w[k]) by {
            if k < wr.len() {
                assert(w[k] == wr[k]);
                assert(wr[k] == wr[k] && !in_slot(wr[k], day, meal_type) && rest.contains(wr[k]));
                let j = choose|j: int| 0 <= j < rest.len() && rest[j] == wr[k];
                assert(plans[j] == rest[j]);
            } else {
                assert(w[k] == plans.last());
                assert(plans[plans.len() - 1] == plans.last());
            }
        }
    }
}

proof fn lemma_slot_recipe_none(plans: Seq<MealPlanEntryView>, day: Seq<char>, meal_type: Seq<char>)
    requires
        forall|k: int| 0 <= k < plans.len() ==> !in_slot(#[trigger] plans[k], day, meal_type),
    ensures
        slot_recipe(plans, day, meal_type) is None,
    decreases plans.len(),
{
    if plans.len() > 0 {
        let rest = plans.drop_last();
        assert forall|k: int| 0 <= k < rest.len() implies !in_slot(#[trigger] rest[k], day, meal_type) by {
            assert(rest[k] == plans[k]);
        }
        lemma_slot_recipe_none(rest, day, meal_type);
        assert(!in_slot(plans[plans.len() - 1], day, meal_type));
    }
}

/// After a recipe is chosen for a slot, the slot shows that recipe; after an
/// empty choice, or one that names no recipe, the slot shows nothing.
pub proof fn lemma_assign_then_select(
    plans: Seq<MealPlanEntryView>,
    recipes: Seq<RecipeView>,
    day: Seq<char>,
    meal_type: Seq<char>,
    recipe_id: Seq<char>,
    entry_id: Seq<char>,
)
    ensures
        selected_in(assigned(plans, recipes, day, meal_type, recipe_id, entry_id), day, meal_type)
            == (if recipe_id.len() > 0 && recipe_index(recipes, recipe_id) < recipes.len() {
                recipe_id
            } else {
                Seq::<char>::empty()
            }),
{
    let kept = without_slot(plans, day, meal_type);
    lemma_without_slot_clears(plans, day, meal_type);
    lemma_slot_recipe_none(kept, day, meal_type);
    lemma_recipe_index(recipes, recipe_id);
    let a = assigned(plans, recipes, day, meal_type, recipe_id, entry_id);
    if recipe_id.len() > 0 && recipe_index(recipes, recipe_id) < recipes.len() {
        assert(a.drop_last() =~= kept);
    }
}

proof fn lemma_without_slot_other_slot(
    plans: Seq<MealPlanEntryView>,
    day: Seq<char>,
    meal_type: Seq<char>,
    day2: Seq<char>,
    meal_type2: Seq<char>,
)
    requires
        !(day == day2 && meal_type == meal_type2),
    ensures
        slot_recipe(without_slot(plans, day, meal_type), day2, meal_type2) == slot_recipe(plans, day2, meal_type2),
    decreases plans.len(),
{
    if plans.len() > 0 {
        let rest = plans.drop_last();
        lemma_without_slot_other_slot(rest, day, meal_type, day2, meal_type2);
        let wr = without_slot(rest, day, meal_type);
        if !in_slot(plans.last(), day, meal_type) {
            assert(wr.push(plans.last()).drop_last() =~= wr);
        }
    }
}

/// Choosing a recipe for one slot leaves what every other slot shows unchanged.
pub proof fn lemma_assign_keeps_other_slots(
    plans: Seq<MealPlanEntryView>,
    recipes: Seq<RecipeView>,
    day: Seq<char>,
    meal_type: Seq<char>,
    recipe_id: Seq<char>,
    entry_id: Seq<char>,
    day2: Seq<char>,
    meal_type2: Seq<char>,
)
    requires
        !(day == day2 && meal_type == meal_type2),
    ensures
        selected_in(assigned(plans, recipes, day, meal_type, recipe_id, entry_id), day2, meal_type2)
            == selected_in(plans, day2, meal_type2),
{
    let kept = without_slot(plans, day, meal_type);
    lemma_without_slot_other_slot(plans, day, meal_type, day2, meal_type2);
    let a = assigned(plans, recipes, day, meal_type, recipe_id, entry_id);
    if recipe_id.len() > 0 && recipe_index(recipes, recipe_id) < recipes.len() {
        assert(a.drop_last() =~= kept);
    }
}

/// No two entries of the plan fill the same slot.
pub open spec fn slots_unique(plans: Seq<MealPlanEntryView>) -> bool {
    forall|i: int, j: int| 0 <= i < j < plans.len()
        ==> !(#[trigger] plans[i].day == #[trigger] plans[j].day && plans[i].meal_type == plans[j].meal_type)
}

proof fn lemma_without_slot_unique(plans: Seq<MealPlanEntryView>, day: Seq<char>, meal_type: Seq<char>)
    requires
        slots_unique(plans),
    ensures
        slots_unique(without_slot(plans, day, meal_type)),
    decreases plans.len(),
{
    if plans.len() > 0 {
        let rest = plans.drop_last();
        assert forall|i: int, j: int| 0 <= i < j < rest.len()
            implies !(#[trigger] rest[i].day == #[trigger] rest[j].day && rest[i].meal_type == rest[j].meal_type) by {
            assert(rest[i] == plans[i] && rest[j] == plans[j]);
        }
        lemma_without_slot_unique(rest, day, meal_type);
        lemma_without_slot_clears(rest, day, meal_type);
        let wr = without_slot(rest, day, meal_type);
        let last = plans.last();
        if !in_slot(last, day, meal_type) {
            let w = wr.push(last);
            assert forall|i: int, j: int| 0 <= i < j < w.len()
                implies !(#[trigger] w[i].day == #[trigger] w[j].day && w[i].meal_type == w[j].meal_type) by {
                if j == wr.len() {
                    assert(w[i] == wr[i]);
                    assert(rest.contains(wr[i]));
                    let k = choose|k: int| 0 <= k < rest.len() && rest[k] == wr[i];
                    assert(plans[k] == rest[k]);
                    assert(plans[plans.len() - 1] == last);
                } else {
                    assert(w[i] == wr[i] && w[j] == wr[j]);
                }
            }
        }
    }
}

/// Choosing a recipe for a slot keeps every slot filled at most once.
pub proof fn lemma_assign_keeps_slots_unique(
    plans: Seq<MealPlanEntryView>,
    recipes: Seq<RecipeView>,
    day: Seq<char>,
    meal_type: Seq<char>,
    recipe_id: Seq<char>,
    entry_id: Seq<char>,
)
    requires
        slots_unique(plans),
    ensures
        slots_unique(assigned(plans, recipes, day, meal_type, recipe_id, entry_id)),
{
    let kept = without_slot(plans, day, meal_type);
    lemma_without_slot_unique(plans, day, meal_type);
    lemma_without_slot_clears(plans, day, meal_type);
    let a = assigned(plans, recipes, day, meal_type, recipe_id, entry_id);
    if recipe_id.len() > 0 && recipe_index(recipes, recipe_id) < recipes.len() {
        assert forall|i: int, j: int| 0 <= i < j < a.len()
            implies !(#[trigger] a[i].day == #[trigger] a[j].day && a[i].meal_type == a[j].meal_type) by {
            assert(a[i] == kept[i]);
            if j < kept.len() {
                assert(a[j] == kept[j]);
            } else {
                assert(!in_slot(kept[i], day, meal_type));
            }
        }
    }
}


/// Positions `offset + j`, in increasing order, of the ingredients `extra[j]`
/// whose key is `name_key`, `unit_key`.
pub open spec fn key_positions(extra: Seq<IngredientItemView>, offset: int, name_key: Seq<char>, unit_key: Seq<char>) -> Seq<usize>
    decreases extra.len(),
{
    if extra.len() == 0 {
        Seq::empty()
    } else {
        let before = key_positions(extra.drop_last(), offset, name_key, unit_key);
        if name_key_of(extra.last()) == name_key && unit_key_of(extra.last()) == unit_key {
            before.push((offset + extra.len() - 1) as usize)
        } else {
            before
        }
    }
}

/// The line `line` once the ingredients `extra`, standing from `offset` on,
/// have joined it: the same name, unit, key and staple mark, and the positions
/// of those of `extra` with its key added to its sources.
pub open spec fn extend_line(line: AggregatedItemView, extra: Seq<IngredientItemView>, offset: int) -> AggregatedItemView {
    AggregatedItemView {
        sources: line.sources + key_positions(extra, offset, line.name_key, line.unit_key),
        ..line
    }
}

/// Every line of `lines` extended by `extra` (see `extend_line`).
pub open spec fn extended_lines(lines: Seq<AggregatedItemView>, extra: Seq<IngredientItemView>, offset: int) -> Seq<AggregatedItemView> {
    Seq::new(lines.len(), |a: int| extend_line(lines[a], extra, offset))
}

proof fn lemma_key_positions(extra: Seq<IngredientItemView>, offset: int, name_key: Seq<char>, unit_key: Seq<char>)
    requires
        0 <= offset,
        offset + extra.len() <= usize::MAX,
    ensures
        forall|k: int| 0 <= k < key_positions(extra, offset, name_key, unit_key).len() ==> {
            let v = #[trigger] key_positions(extra, offset, name_key, unit_key)[k];
            &&& offset <= v < offset + extra.len()
            &&& name_key_of(extra[v - offset]) == name_key
            &&& unit_key_of(extra[v - offset]) == unit_key
        },
        forall|k1: int, k2: int| 0 <= k1 < k2 < key_positions(extra, offset, name_key, unit_key).len()
            ==> #[trigger] key_positions(extra, offset, name_key, unit_key)[k1]
                < #[trigger] key_positions(extra, offset, name_key, unit_key)[k2],
        forall|j: int| 0 <= j < extra.len() && name_key_of(#[trigger] extra[j]) == name_key && unit_key_of(extra[j]) == unit_key
            ==> key_positions(extra, offset, name_key, unit_key).contains((offset + j) as usize),
    decreases extra.len(),
{
    if extra.len() > 0 {
        let rest = extra.drop_last();
        lemma_key_positions(rest, offset, name_key, unit_key);
        let kr = key_positions(rest, offset, name_key, unit_key);
        let kp = key_positions(extra, offset, name_key, unit_key);
        assert forall|k: int| 0 <= k < kp.len() implies {
            let v = #[trigger] kp[k];
            &&& offset <= v < offset + extra.len()
            &&& name_key_of(extra[v - offset]) == name_key
            &&& unit_key_of(extra[v - offset]) == unit_key
        } by {
            if k < kr.len() {
                assert(kp[k] == kr[k]);
                assert(extra[kr[k] - offset] == rest[kr[k] - offset]);
            }
        }
        assert forall|k1: int, k2: int| 0 <= k1 < k2 < kp.len() implies #[trigger] kp[k1] < #[trigger] kp[k2] by {
            assert(kp[k1] == kr[k1]);
            if k2 < kr.len() {
                assert(kp[k2] == kr[k2]);
            }
        }
        assert forall|j: int| 0 <= j < extra.len() && name_key_of(#[trigger] extra[j]) == name_key && unit_key_of(extra[j]) == unit_key
            implies kp.contains((offset + j) as usize) by {
            if j < rest.len() {
                assert(rest[j] == extra[j]);
                assert(kr.contains((offset + j) as usize));
                let w = choose|w: int| 0 <= w < kr.len() && kr[w] == (offset + j) as usize;
                assert(kp[w] == kr[w]);
            } else {
                assert(kp[kr.len() as int] == (offset + j) as usize);
            }
        }
    }
}

proof fn lemma_extend_line(ings: Seq<IngredientItemView>, extra: Seq<IngredientItemView>, line: AggregatedItemView)
    requires
        line_of(ings, line, ings.len() as int),
        forall|j: int| 0 <= j < extra.len() ==> ings.contains(#[trigger] extra[j]),
        ings.len() + extra.len() <= usize::MAX,
    ensures
        line_of(ings + extra, extend_line(line, extra, ings.len() as int), (ings + extra).len() as int),
{
    let n = ings.len() as int;
    let all = ings + extra;
    let h = extend_line(line, extra, n);
    let s = line.sources;
    let kp = key_positions(extra, n, line.name_key, line.unit_key);
    lemma_key_positions(extra, n, line.name_key, line.unit_key);
    let s2 = h.sources;
    assert(s2 == s + kp);
    assert forall|j: int| 0 <= j < s2.len() implies
        #[trigger] s2[j] < all.len() && same_key(all[s2[j] as int], h) by {
        if j < s.len() {
            assert(s2[j] == s[j]);
            assert(all[s[j] as int] == ings[s[j] as int]);
        } else {
            assert(s2[j] == kp[j - s.len()]);
            assert(all[kp[j - s.len()] as int] == extra[kp[j - s.len()] - n]);
        }
    }
    assert forall|j1: int, j2: int| 0 <= j1 < j2 < s2.len() implies #[trigger] s2[j1] < #[trigger] s2[j2] by {
        if j2 < s.len() {
            assert(s2[j1] == s[j1] && s2[j2] == s[j2]);
        } else if j1 < s.len() {
            assert(s2[j1] == s[j1] && s2[j2] == kp[j2 - s.len()]);
        } else {
            assert(s2[j1] == kp[j1 - s.len()] && s2[j2] == kp[j2 - s.len()]);
        }
    }
    assert forall|i: int| 0 <= i < all.len() && #[trigger] same_key(all[i], h) implies s2.contains(i as usize) by {
        if i < n {
            assert(all[i] == ings[i]);
            assert(same_key(ings[i], line));
            assert(s.contains(i as usize));
            let w = choose|w: int| 0 <= w < s.len() && s[w] == i as usize;
            assert(s2[w] == s[w]);
        } else {
            assert(all[i] == extra[i - n]);
            assert(kp.contains((n + (i - n)) as usize));
            let w = choose|w: int| 0 <= w < kp.len() && kp[w] == i as usize;
            assert(s2[s.len() + w] == kp[w]);
        }
    }
    assert(s2[0] == s[0]);
    assert(all[s[0] as int] == ings[s[0] as int]);
    if line.is_pantry_staple {
        let w = choose|w: int| 0 <= w < s.len() && #[trigger] ings[s[w] as int].is_pantry_staple;
        assert(s2[w] == s[w]);
        assert(all[s2[w] as int] == ings[s[w] as int]);
    } else {
        assert forall|j: int| 0 <= j < s2.len() implies !#[trigger] all[s2[j] as int].is_pantry_staple by {
            if j < s.len() {
                assert(s2[j] == s[j]);
                assert(all[s[j] as int] == ings[s[j] as int]);
            } else {
                let m = kp[j - s.len()] - n;
                assert(s2[j] == kp[j - s.len()]);
                assert(all[s2[j] as int] == extra[m]);
                assert(ings.contains(extra[m]));
                let i = choose|i: int| 0 <= i < ings.len() && ings[i] == extra[m];
                assert(same_key(ings[i], line));
                assert(s.contains(i as usize));
                let w = choose|w: int| 0 <= w < s.len() && s[w] == i as usize;
                assert(!ings[s[w] as int].is_pantry_staple);
            }
        }
    }
}

/// When every added ingredient already occurs among `ings`, the grocery list
/// of `ings + extra` is that of `ings` with each line's sources extended by
/// the positions of the added ingredients of its key.
pub proof fn lemma_aggregation_extend(ings: Seq<IngredientItemView>, extra: Seq<IngredientItemView>, lines: Seq<AggregatedItemView>)
    requires
        aggregation_of(ings, lines),
        forall|j: int| 0 <= j < extra.len() ==> ings.contains(#[trigger] extra[j]),
        ings.len() + extra.len() <= usize::MAX,
    ensures
        aggregation_of(ings + extra, extended_lines(lines, extra, ings.len() as int)),
{
    let n = ings.len() as int;
    let all = ings + extra;
    let h = extended_lines(lines, extra, n);
    assert forall|a: int| 0 <= a < h.len() implies line_of(all, #[trigger] h[a], all.len() as int) by {
        lemma_extend_line(ings, extra, lines[a]);
    }
    assert forall|a: int, b: int| 0 <= a < b < h.len() implies listed_before(#[trigger] h[a], #[trigger] h[b]) by {
        assert(listed_before(lines[a], lines[b]));
        assert(line_of(ings, lines[a], n));
        assert(line_of(ings, lines[b], n));
        assert(h[a].sources[0] == lines[a].sources[0]);
        assert(h[b].sources[0] == lines[b].sources[0]);
    }
    assert forall|i: int| 0 <= i < all.len() implies #[trigger] covered(all, h, i) by {
        let i1 = if i < n {
            i
        } else {
            assert(ings.contains(extra[i - n]));
            choose|k: int| 0 <= k < ings.len() && ings[k] == extra[i - n]
        };
        assert(all[i] == ings[i1]);
        assert(covered(ings, lines, i1));
        let b = choose|b: int| 0 <= b < lines.len() && #[trigger] same_key(ings[i1], lines[b]);
        assert(same_key(all[i], h[b]));
    }
}

proof fn lemma_increasing_equal(s: Seq<usize>, t: Seq<usize>)
    requires
        forall|j1: int, j2: int| 0 <= j1 < j2 < s.len() ==> #[trigger] s[j1] < #[trigger] s[j2],
        forall|j1: int, j2: int| 0 <= j1 < j2 < t.len() ==> #[trigger] t[j1] < #[trigger] t[j2],
        forall|v: usize| s.contains(v) <==> t.contains(v),
    ensures
        s == t,
    decreases s.len(),
{
    if s.len() == 0 {
        if t.len() > 0 {
            assert(t.contains(t[0]));
        }
        assert(s =~= t);
    } else {
        assert(s.contains(s[0]));
        let k = choose|k: int| 0 <= k < t.len() && t[k] == s[0];
        assert(t.contains(t[0]));
        let m = choose|m: int| 0 <= m < s.len() && s[m] == t[0];
        if k > 0 {
            assert(t[0] < t[k]);
            if m > 0 {
                assert(s[0] < s[m]);
            }
        }
        assert(s[0] == t[0]);
        let s1 = s.drop_first();
        let t1 = t.drop_first();
        assert forall|v: usize| s1.contains(v) implies t1.contains(v) by {
            let w = choose|w: int| 0 <= w < s1.len() && s1[w] == v;
            assert(s[w + 1] == v);
            assert(s[0] < s[w + 1]);
            assert(s.contains(v));
            let w2 = choose|w2: int| 0 <= w2 < t.len() && t[w2] == v;
            assert(t1[w2 - 1] == v);
        }
        assert forall|v: usize| t1.contains(v) implies s1.contains(v) by {
            let w = choose|w: int| 0 <= w < t1.len() && t1[w] == v;
            assert(t[w + 1] == v);
            assert(t[0] < t[w + 1]);
            assert(t.contains(v));
            let w2 = choose|w2: int| 0 <= w2 < s.len() && s[w2] == v;
            assert(s1[w2 - 1] == v);
        }
        assert forall|j1: int, j2: int| 0 <= j1 < j2 < s1.len() implies #[trigger] s1[j1] < #[trigger] s1[j2] by {
            assert(s[j1 + 1] < s[j2 + 1]);
        }
        assert forall|j1: int, j2: int| 0 <= j1 < j2 < t1.len() implies #[trigger] t1[j1] < #[trigger] t1[j2] by {
            assert(t[j1 + 1] < t[j2 + 1]);
        }
        lemma_increasing_equal(s1, t1);
        assert(s.len() == t.len());
        assert forall|i: int| 0 <= i < s.len() implies s[i] == t[i] by {
            if i > 0 {
                assert(s[i] == s1[i - 1] && t[i] == t1[i - 1]);
            }
        }
        assert(s =~= t);
    }
}

proof fn lemma_line_unique(ings: Seq<IngredientItemView>, x: AggregatedItemView, y: AggregatedItemView)
    requires
        line_of(ings, x, ings.len() as int),
        line_of(ings, y, ings.len() as int),
        x.name_key == y.name_key,
        x.unit_key == y.unit_key,
    ensures
        x == y,
{
    assert forall|v: usize| x.sources.contains(v) implies y.sources.contains(v) by {
        let w = choose|w: int| 0 <= w < x.sources.len() && x.sources[w] == v;
        assert(same_key(ings[x.sources[w] as int], x));
        assert(same_key(ings[v as int], y));
    }
    assert forall|v: usize| y.sources.contains(v) implies x.sources.contains(v) by {
        let w = choose|w: int| 0 <= w < y.sources.len() && y.sources[w] == v;
        assert(same_key(ings[y.sources[w] as int], y));
        assert(same_key(ings[v as int], x));
    }
    lemma_increasing_equal(x.sources, y.sources);
}

proof fn lemma_listed_before_transitive(a: AggregatedItemView, b: AggregatedItemView, c: AggregatedItemView)
    requires
        listed_before(a, b),
        listed_before(b, c),
    ensures
        listed_before(a, c),
{
    if text_lt(a.name_key, b.name_key) && text_lt(b.name_key, c.name_key) {
        lemma_text_lt_transitive(a.name_key, b.name_key, c.name_key);
    }
}

proof fn lemma_listed_before_irreflexive(a: AggregatedItemView)
    ensures
        !listed_before(a, a),
{
    lemma_text_lt_irreflexive(a.name_key);
}

proof fn lemma_ordered_equal(s: Seq<AggregatedItemView>, t: Seq<AggregatedItemView>)
    requires
        in_list_order(s),
        in_list_order(t),
        forall|x: AggregatedItemView| s.contains(x) <==> t.contains(x),
    ensures
        s == t,
    decreases s.len(),
{
    if s.len() == 0 {
        if t.len() > 0 {
            assert(t.contains(t[0]));
        }
        assert(s =~= t);
    } else {
        assert(s.contains(s[0]));
        let k = choose|k: int| 0 <= k < t.len() && t[k] == s[0];
        assert(t.contains(t[0]));
        let m = choose|m: int| 0 <= m < s.len() && s[m] == t[0];
        if k > 0 && m > 0 {
            assert(listed_before(t[0], t[k]));
            assert(listed_before(s[0], s[m]));
            lemma_listed_before_transitive(s[0], t[0], s[0]);
            lemma_listed_before_irreflexive(s[0]);
        }
        assert(s[0] == t[0]);
        let s1 = s.drop_first();
        let t1 = t.drop_first();
        assert forall|x: AggregatedItemView| s1.contains(x) implies t1.contains(x) by {
            let w = choose|w: int| 0 <= w < s1.len() && s1[w] == x;
            assert(s[w + 1] == x);
            assert(listed_before(s[0], s[w + 1]));
            lemma_listed_before_irreflexive(x);
            assert(s.contains(x));
            let w2 = choose|w2: int| 0 <= w2 < t.len() && t[w2] == x;
            assert(t1[w2 - 1] == x);
        }
        assert forall|x: AggregatedItemView| t1.contains(x) implies s1.contains(x) by {
            let w = choose|w: int| 0 <= w < t1.len() && t1[w] == x;
            assert(t[w + 1] == x);
            assert(listed_before(t[0], t[w + 1]));
            lemma_listed_before_irreflexive(x);
            assert(t.contains(x));
            let w2 = choose|w2: int| 0 <= w2 < s.len() && s[w2] == x;
            assert(s1[w2 - 1] == x);
        }
        assert forall|a: int, b: int| 0 <= a < b < s1.len() implies listed_before(#[trigger] s1[a], #[trigger] s1[b]) by {
            assert(listed_before(s[a + 1], s[b + 1]));
        }
        assert forall|a: int, b: int| 0 <= a < b < t1.len() implies listed_before(#[trigger] t1[a], #[trigger] t1[b]) by {
            assert(listed_before(t[a + 1], t[b + 1]));
        }
        lemma_ordered_equal(s1, t1);
        assert(s.len() == t.len());
        assert forall|i: int| 0 <= i < s.len() implies s[i] == t[i] by {
            if i > 0 {
                assert(s[i] == s1[i - 1] && t[i] == t1[i - 1]);
            }
        }
        assert(s =~= t);
    }
}

proof fn lemma_lines_within(ings: Seq<IngredientItemView>, g: Seq<AggregatedItemView>, h: Seq<AggregatedItemView>)
    requires
        aggregation_of(ings, g),
        aggregation_of(ings, h),
    ensures
        forall|x: AggregatedItemView| g.contains(x) ==> h.contains(x),
{
    assert forall|x: AggregatedItemView| g.contains(x) implies h.contains(x) by {
        let a = choose|a: int| 0 <= a < g.len() && g[a] == x;
        assert(line_of(ings, g[a], ings.len() as int));
        let i = x.sources[0] as int;
        assert(same_key(ings[i], x));
        assert(covered(ings, h, i));
        let b = choose|b: int| 0 <= b < h.len() && #[trigger] same_key(ings[i], h[b]);
        assert(line_of(ings, h[b], ings.len() as int));
        lemma_line_unique(ings, x, h[b]);
    }
}

/// The grocery list of a list of ingredients is unique: `aggregation_of`
/// pins it down.
pub proof fn lemma_aggregation_unique(ings: Seq<IngredientItemView>, g: Seq<AggregatedItemView>, h: Seq<AggregatedItemView>)
    requires
        aggregation_of(ings, g),
        aggregation_of(ings, h),
    ensures
        g == h,
{
    lemma_lines_within(ings, g, h);
    lemma_lines_within(ings, h, g);
    lemma_ordered_equal(g, h);
}

proof fn lemma_planned_holds_recipe(plans: Seq<MealPlanEntryView>, recipes: Seq<RecipeView>, k: int)
    requires
        0 <= k < plans.len(),
        recipe_index(recipes, plans[k].recipe_id) < recipes.len(),
    ensures
        forall|j: int| 0 <= j < recipes[recipe_index(recipes, plans[k].recipe_id)].ingredients.len()
            ==> planned(plans, recipes).contains(
                #[trigger] recipes[recipe_index(recipes, plans[k].recipe_id)].ingredients[j]),
    decreases plans.len(),
{
    let ingr = recipes[recipe_index(recipes, plans[k].recipe_id)].ingredients;
    let rest = plans.drop_last();
    let before = planned(rest, recipes);
    let whole = planned(plans, recipes);
    if k == plans.len() - 1 {
        assert forall|j: int| 0 <= j < ingr.len() implies whole.contains(#[trigger] ingr[j]) by {
            assert(whole[before.len() + j] == ingr[j]);
        }
    } else {
        assert(rest[k] == plans[k]);
        lemma_planned_holds_recipe(rest, recipes, k);
        assert forall|j: int| 0 <= j < ingr.len() implies whole.contains(#[trigger] ingr[j]) by {
            assert(before.contains(ingr[j]));
            let w = choose|w: int| 0 <= w < before.len() && before[w] == ingr[j];
            assert(whole[w] == before[w]);
        }
    }
}

/// Planning again a recipe that the week already holds (in any further slot)
/// keeps the grocery list's lines, with their names, units and staple marks,
/// and adds to each line the positions of that recipe's ingredients of its
/// key, whose amounts add to the line's total: one recipe planned twice
/// lists each of its ingredients twice in its line.
pub proof fn lemma_plan_recipe_again(
    plans: Seq<MealPlanEntryView>,
    recipes: Seq<RecipeView>,
    entry: MealPlanEntryView,
    lines: Seq<AggregatedItemView>,
    lines_after: Seq<AggregatedItemView>,
)
    requires
        recipe_index(recipes, entry.recipe_id) < recipes.len(),
        exists|k: int| 0 <= k < plans.len()
            && recipe_index(recipes, #[trigger] plans[k].recipe_id) == recipe_index(recipes, entry.recipe_id),
        aggregation_of(planned(plans, recipes), lines),
        aggregation_of(planned(plans.push(entry), recipes), lines_after),
        planned(plans.push(entry), recipes).len() <= usize::MAX,
    ensures
        planned(plans.push(entry), recipes)
            == planned(plans, recipes) + recipes[recipe_index(recipes, entry.recipe_id)].ingredients,
        lines_after == extended_lines(
            lines,
            recipes[recipe_index(recipes, entry.recipe_id)].ingredients,
            planned(plans, recipes).len() as int,
        ),
{
    let p = recipe_index(recipes, entry.recipe_id);
    let ingr = recipes[p].ingredients;
    let before = planned(plans, recipes);
    assert(plans.push(entry).drop_last() =~= plans);
    assert(plans.push(entry).last() == entry);
    let k = choose|k: int| 0 <= k < plans.len() && recipe_index(recipes, #[trigger] plans[k].recipe_id) == p;
    lemma_planned_holds_recipe(plans, recipes, k);
    lemma_aggregation_extend(before, ingr, lines);
    lemma_aggregation_unique(before + ingr, lines_after, extended_lines(lines, ingr, before.len() as int));
}


/// The ingredients that one planned meal adds: all of its recipe's
/// ingredients, in order, or none when its recipe is not in the book.
pub open spec fn meal_ingredients(entry: MealPlanEntryView, recipes: Seq<RecipeView>) -> Seq<IngredientItemView> {
    let p = recipe_index(recipes, entry.recipe_id);
    if p < recipes.len() {
        recipes[p].ingredients
    } else {
        Seq::empty()
    }
}

/// Planning one more meal appends all of its recipe's ingredients, in order,
/// to what the plan called for before, whether or not that recipe, or an
/// identical ingredient, was planned already.
pub proof fn lemma_planned_push(plans: Seq<MealPlanEntryView>, recipes: Seq<RecipeView>, entry: MealPlanEntryView)
    ensures
        planned(plans.push(entry), recipes) == planned(plans, recipes) + meal_ingredients(entry, recipes),
{
    assert(plans.push(entry).drop_last() =~= plans);
    assert(plans.push(entry).last() == entry);
    let before = planned(plans, recipes);
    assert(before + Seq::<IngredientItemView>::empty() =~= before);
}

/// The ingredients of a week planned in two parts are those of the first
/// part followed by those of the second.
pub proof fn lemma_planned_concat(a: Seq<MealPlanEntryView>, b: Seq<MealPlanEntryView>, recipes: Seq<RecipeView>)
    ensures
        planned(a + b, recipes) == planned(a, recipes) + planned(b, recipes),
    decreases b.len(),
{
    if b.len() == 0 {
        assert(a + b =~= a);
        assert(planned(a, recipes) + Seq::<IngredientItemView>::empty() =~= planned(a, recipes));
    } else {
        let bl = b.drop_last();
        let e = b.last();
        lemma_planned_concat(a, bl, recipes);
        assert(a + b =~= (a + bl).push(e));
        assert(b =~= bl.push(e));
        lemma_planned_push(a + bl, recipes, e);
        lemma_planned_push(bl, recipes, e);
        assert(planned(a, recipes) + planned(bl, recipes) + meal_ingredients(e, recipes)
            =~= planned(a, recipes) + (planned(bl, recipes) + meal_ingredients(e, recipes)));
    }
}

/// The number of ingredients that the plan's meals call for, counted meal by
/// meal.
pub open spec fn ingredient_count(plans: Seq<MealPlanEntryView>, recipes: Seq<RecipeView>) -> nat
    decreases plans.len(),
{
    if plans.len() == 0 {
        0
    } else {
        ingredient_count(plans.drop_last(), recipes) + meal_ingredients(plans.last(), recipes).len()
    }
}

/// Every planned meal contributes all of its recipe's ingredients: the list
/// holds as many ingredients as the planned recipes have together.
pub proof fn lemma_planned_count(plans: Seq<MealPlanEntryView>, recipes: Seq<RecipeView>)
    ensures
        planned(plans, recipes).len() == ingredient_count(plans, recipes),
    decreases plans.len(),
{
    if plans.len() > 0 {
        lemma_planned_count(plans.drop_last(), recipes);
        assert(plans.drop_last().push(plans.last()) =~= plans);
        lemma_planned_push(plans.drop_last(), recipes, plans.last());
    }
}

/// The plan without the slot's entries is the plan's other entries, in order.
pub proof fn lemma_without_slot_is_filter(plans: Seq<MealPlanEntryView>, day: Seq<char>, meal_type: Seq<char>)
    ensures
        without_slot(plans, day, meal_type) == plans.filter(|e: MealPlanEntryView| !in_slot(e, day, meal_type)),
    decreases plans.len(),
{
    reveal(Seq::filter);
    if plans.len() == 0 {
        assert(plans.filter(|e: MealPlanEntryView| !in_slot(e, day, meal_type)) =~= Seq::<MealPlanEntryView>::empty());
    } else {
        lemma_without_slot_is_filter(plans.drop_last(), day, meal_type);
    }
}

/// Choosing a recipe of the book for a slot keeps the entries of the other
/// slots, in order, and adds at the end one entry for the slot, with id
/// `entry_id`, that carries the chosen id and the title of the first recipe
/// of the book with that id, whatever the slot held before; an empty or
/// unknown choice only clears the slot.
pub proof fn lemma_assigned_entry(
    plans: Seq<MealPlanEntryView>,
    recipes: Seq<RecipeView>,
    day: Seq<char>,
    meal_type: Seq<char>,
    recipe_id: Seq<char>,
    entry_id: Seq<char>,
)
    ensures
        ({
            let others = plans.filter(|e: MealPlanEntryView| !in_slot(e, day, meal_type));
            let p = recipe_index(recipes, recipe_id);
            if recipe_id.len() > 0 && p < recipes.len() {
                &&& recipes[p].id == recipe_id
                &&& forall|j: int| 0 <= j < p ==> (#[trigger] recipes[j]).id != recipe_id
                &&& assigned(plans, recipes, day, meal_type, recipe_id, entry_id) == others.push(
                    MealPlanEntryView {
                        id: entry_id,
                        day,
                        meal_type,
                        recipe_id,
                        recipe_title: recipes[p].title,
                    },
                )
            } else {
                assigned(plans, recipes, day, meal_type, recipe_id, entry_id) == others
            }
        }),
{
    lemma_without_slot_is_filter(plans, day, meal_type);
    lemma_recipe_index(recipes, recipe_id);
}

} // verus!
