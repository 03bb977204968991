//! The recipe book: looking recipes up, deleting and rating them, the rows of
//! the recipe form, and the recipe that a filled-in form describes.

use vstd::prelude::*;
use vstd::string::StringExecFns;
use crate::ids::{fresh_id, is_fresh_id_shape};
use crate::model::{IngredientDraft, IngredientDraftView, IngredientItem, IngredientItemView, Recipe, RecipeView, copy_ingredients};
use crate::text::{decimal, decimal_text, same_text, trim_text, trimmed};

verus! {

/// Position of the first recipe at or after `k` whose id is `id`, or the
/// length of `recipes` when there is none.
pub open spec fn recipe_index_from(recipes: Seq<RecipeView>, id: Seq<char>, k: int) -> int
    decreases recipes.len() - k,
{
    if k < 0 || k >= recipes.len() {
        recipes.len() as int
    } else if recipes[k].id == id {
        k
    } else {
        recipe_index_from(recipes, id, k + 1)
    }
}

/// Position of the first recipe whose id is `id`, or the length of `recipes`
/// when there is none.
pub open spec fn recipe_index(recipes: Seq<RecipeView>, id: Seq<char>) -> int {
    recipe_index_from(recipes, id, 0)
}

/// `recipe_index` finds the first match, and finds none only when there is none.
pub proof fn lemma_recipe_index(recipes: Seq<RecipeView>, id: Seq<char>)
    ensures
        0 <= recipe_index(recipes, id) <= recipes.len(),
        recipe_index(recipes, id) < recipes.len() ==> recipes[recipe_index(recipes, id)].id == id,
        forall|j: int| 0 <= j < recipe_index(recipes, id) ==> recipes[j].id != id,
{
    lemma_recipe_index_from(recipes, id, 0);
}

proof fn lemma_recipe_index_from(recipes: Seq<RecipeView>, id: Seq<char>, k: int)
    requires
        0 <= k <= recipes.len(),
    ensures
        k <= recipe_index_from(recipes, id, k) <= recipes.len(),
        recipe_index_from(recipes, id, k) < recipes.len()
            ==> recipes[recipe_index_from(recipes, id, k)].id == id,
        forall|j: int| k <= j < recipe_index_from(recipes, id, k) ==> recipes[j].id != id,
    decreases recipes.len() - k,
{
    if k < recipes.len() && recipes[k].id != id {
        lemma_recipe_index_from(recipes, id, k + 1);
    }
}

/// Position of the first recipe whose id is `id` (`iter().position`).
pub fn find_recipe(recipes: &Vec<Recipe>, id: &str) -> (r: Option<usize>)
    ensures
        r == (if recipe_index(recipes.deep_view(), id@) < recipes.len() {
            Some(recipe_index(recipes.deep_view(), id@) as usize)
        } else {
            None::<usize>
        }),
{
    let ghost rv = recipes.deep_view();
    let mut k: usize = 0;
    while k < recipes.len()
        invariant
            0 <= k <= recipes.len(),
            rv == recipes.deep_view(),
            recipe_index(rv, id@) == recipe_index_from(rv, id@, k as int),
        decreases recipes.len() - k,
    {
        assert(rv[k as int] == recipes@[k as int]@);
        if same_text(recipes[k].id.as_str(), id) {
            return Some(k);
        }
        k = k + 1;
    }
    None
}


/// Removes the first recipe whose id is `id` and hands it back; does nothing
/// when no recipe has that id.
pub fn delete_recipe(recipes: &mut Vec<Recipe>, id: &str) -> (removed: Option<Recipe>)
    ensures
        ({
            let k = recipe_index(old(recipes).deep_view(), id@);
            if k < old(recipes).len() {
                &&& removed matches Some(r) && r@ == old(recipes).deep_view()[k]
                &&& final(recipes).deep_view() == old(recipes).deep_view().remove(k)
            } else {
                &&& removed is None
                &&& final(recipes).deep_view() == old(recipes).deep_view()
            }
        }),
{
    let ghost rv = recipes.deep_view();
    proof {
        lemma_recipe_index(rv, id@);
    }
    match find_recipe(recipes, id) {
        Some(k) => {
            let r = recipes.remove(k);
            assert(recipes.deep_view() =~= rv.remove(k as int));
            Some(r)
        },
        None => None,
    }
}

/// Sets the rating of the first recipe whose id is `id`; says whether there
/// was one.
pub fn rate_recipe(recipes: &mut Vec<Recipe>, id: &str, rating: u8) -> (found: bool)
    ensures
        ({
            let k = recipe_index(old(recipes).deep_view(), id@);
            &&& found == (k < old(recipes).len())
            &&& found ==> final(recipes).deep_view()
                == old(recipes).deep_view().update(k, RecipeView { rating, ..old(recipes).deep_view()[k] })
            &&& !found ==> final(recipes).deep_view() == old(recipes).deep_view()
        }),
{
    let ghost rv = recipes.deep_view();
    proof {
        lemma_recipe_index(rv, id@);
    }
    match find_recipe(recipes, id) {
        Some(k) => {
            let old_recipe = &recipes[k];
            let rated = Recipe {
                id: old_recipe.id.clone(),
                title: old_recipe.title.clone(),
                ingredients: copy_ingredients(&old_recipe.ingredients),
                instructions: old_recipe.instructions.clone(),
                emoji: old_recipe.emoji.clone(),
                rating,
            };
            assert(rated@ == RecipeView { rating, ..rv[k as int] });
            recipes.set(k, rated);
            assert(recipes.deep_view() =~= rv.update(k as int, RecipeView { rating, ..rv[k as int] }));
            true
        },
        None => false,
    }
}

/// After a recipe is rated, the book shows the new rating for it.
pub proof fn lemma_rate_then_read(recipes: Seq<RecipeView>, id: Seq<char>, rating: u8)
    requires
        recipe_index(recipes, id) < recipes.len(),
    ensures
        ({
            let k = recipe_index(recipes, id);
            let rated = recipes.update(k, RecipeView { rating, ..recipes[k] });
            &&& recipe_index(rated, id) == k
            &&& rated[recipe_index(rated, id)].rating == rating
        }),
{
    lemma_recipe_index(recipes, id);
    let k = recipe_index(recipes, id);
    let rated = recipes.update(k, RecipeView { rating, ..recipes[k] });
    lemma_recipe_index(rated, id);
    let k2 = recipe_index(rated, id);
    if k2 < k {
        assert(rated[k2] == recipes[k2]);
    } else if k2 > k {
        assert(rated[k].id == id);
    }
}

/// The empty ingredient row of the recipe form.
pub open spec fn blank_draft_view() -> IngredientDraftView {
    IngredientDraftView { name: Seq::empty(), quantity: "1"@, unit: "Pcs"@, is_pantry_staple: false }
}

/// A new, empty ingredient row: no name, amount "1", unit "Pcs".
pub fn blank_draft() -> (d: IngredientDraft)
    ensures
        d@ == blank_draft_view(),
{
    IngredientDraft {
        name: String::new(),
        quantity: String::from_str("1"),
        unit: String::from_str("Pcs"),
        is_pantry_staple: false,
    }
}

/// The rows of a fresh recipe form: one empty row.
pub fn initial_drafts() -> (r: Vec<IngredientDraft>)
    ensures
        r.deep_view() == seq![blank_draft_view()],
{
    let mut r: Vec<IngredientDraft> = Vec::new();
    r.push(blank_draft());
    assert(r.deep_view() =~= seq![blank_draft_view()]);
    r
}

/// Adds an empty row to the recipe form.
pub fn add_draft_row(drafts: &mut Vec<IngredientDraft>)
    ensures
        final(drafts).deep_view() == old(drafts).deep_view().push(blank_draft_view()),
{
    let ghost before = drafts.deep_view();
    drafts.push(blank_draft());
    assert(drafts.deep_view() =~= before.push(blank_draft_view()));
}

/// Removes the row at `index` from the recipe form, unless it is the only
/// row: the form always keeps at least one row.
pub fn remove_draft_row(drafts: &mut Vec<IngredientDraft>, index: usize) -> (removed: bool)
    requires
        old(drafts).len() > 1 ==> index < old(drafts).len(),
    ensures
        removed == (old(drafts).len() > 1),
        removed ==> final(drafts).deep_view() == old(drafts).deep_view().remove(index as int),
        !removed ==> final(drafts).deep_view() == old(drafts).deep_view(),
        old(drafts).len() >= 1 ==> final(drafts).len() >= 1,
{
    if drafts.len() > 1 {
        let ghost before = drafts.deep_view();
        drafts.remove(index);
        assert(drafts.deep_view() =~= before.remove(index as int));
        true
    } else {
        false
    }
}

/// The ingredients that the rows of the form describe: rows whose trimmed
/// name is empty are skipped; names and units are trimmed; `quantities[i]` is
/// the amount read from row `i`.
pub open spec fn drafted(drafts: Seq<IngredientDraftView>, quantities: Seq<u64>) -> Seq<IngredientItemView>
    decreases drafts.len(),
{
    if drafts.len() == 0 {
        Seq::empty()
    } else {
        let before = drafted(drafts.drop_last(), quantities);
        let d = drafts.last();
        if trimmed(d.name).len() == 0 {
            before
        } else {
            before.push(IngredientItemView {
                name: trimmed(d.name),
                quantity_bits: quantities[drafts.len() - 1],
                unit: trimmed(d.unit),
                is_pantry_staple: d.is_pantry_staple,
            })
        }
    }
}

/// The ingredients of the recipe form; `quantities[i]` is the amount read
/// from row `i`.
pub fn ingredients_from_drafts(drafts: &Vec<IngredientDraft>, quantities: &Vec<u64>) -> (r: Vec<IngredientItem>)
    requires
        quantities.len() == drafts.len(),
    ensures
        r.deep_view() == drafted(drafts.deep_view(), quantities@),
{
    let ghost dv = drafts.deep_view();
    let mut r: Vec<IngredientItem> = Vec::new();
    for i in 0..drafts.len()
        invariant
            quantities.len() == drafts.len(),
            dv == drafts.deep_view(),
            r.deep_view() == drafted(dv.take(i as int), quantities@),
    {
        assert(dv.take(i + 1).drop_last() =~= dv.take(i as int));
        assert(dv.take(i + 1).last() == drafts@[i as int]@);
        let name = trim_text(drafts[i].name.as_str());
        if !name.as_str().is_empty() {
            let item = IngredientItem {
                name,
                quantity_bits: quantities[i],
                unit: trim_text(drafts[i].unit.as_str()),
                is_pantry_staple: drafts[i].is_pantry_staple,
            };
            let ghost before = r.deep_view();
            r.push(item);
            assert(r.deep_view() =~= before.push(item@));
        }
    }
    assert(dv.take(drafts.len() as int) =~= dv);
    r
}

/// The recipe that the form describes, with id `id`: trimmed title, the
/// form's ingredients, instructions as typed, no emoji.
pub open spec fn drafted_recipe(
    id: Seq<char>,
    title: Seq<char>,
    instructions: Seq<char>,
    rating: u8,
    drafts: Seq<IngredientDraftView>,
    quantities: Seq<u64>,
) -> RecipeView {
    RecipeView {
        id,
        title: trimmed(title),
        ingredients: drafted(drafts, quantities),
        instructions,
        emoji: Seq::empty(),
        rating,
    }
}

/// The recipe of the form, with id `id`, or nothing when the trimmed title is
/// empty.
pub fn create_recipe_with_id(
    title: &str,
    instructions: &str,
    rating: u8,
    drafts: &Vec<IngredientDraft>,
    quantities: &Vec<u64>,
    id: String,
) -> (r: Option<Recipe>)
    requires
        quantities.len() == drafts.len(),
    ensures
        (r is Some) == (trimmed(title@).len() > 0),
        r matches Some(recipe) ==> recipe@ == drafted_recipe(id@, title@, instructions@, rating, drafts.deep_view(), quantities@),
{
    let t = trim_text(title);
    if t.as_str().is_empty() {
        return None;
    }
    Some(Recipe {
        id,
        title: t,
        ingredients: ingredients_from_drafts(drafts, quantities),
        instructions: String::from_str(instructions),
        emoji: String::new(),
        rating,
    })
}

/// The recipe of the form, with a fresh id, or nothing when the trimmed title
/// is empty.
pub fn create_recipe(
    title: &str,
    instructions: &str,
    rating: u8,
    drafts: &Vec<IngredientDraft>,
    quantities: &Vec<u64>,
) -> (r: Option<Recipe>)
    requires
        quantities.len() == drafts.len(),
    ensures
        (r is Some) == (trimmed(title@).len() > 0),
        r matches Some(recipe) ==> is_fresh_id_shape(recipe@.id)
            && recipe@ == drafted_recipe(recipe@.id, title@, instructions@, rating, drafts.deep_view(), quantities@),
{
    let t = trim_text(title);
    if t.as_str().is_empty() {
        return None;
    }
    create_recipe_with_id(title, instructions, rating, drafts, quantities, fresh_id())
}

/// The URL to import from: the trimmed input, unless it is empty.
pub fn scrape_target(url_input: &str) -> (r: Option<String>)
    ensures
        (r is Some) == (trimmed(url_input@).len() > 0),
        r matches Some(u) ==> u@ == trimmed(url_input@),
{
    let u = trim_text(url_input);
    if u.as_str().is_empty() {
        None
    } else {
        Some(u)
    }
}

/// Notice shown while a recipe is being imported.
pub fn scraping_notice() -> (r: String)
    ensures
        r@ == "Scraping recipe content & ingredients..."@,
{
    String::from_str("Scraping recipe content & ingredients...")
}

/// Notice shown after a recipe has been imported.
pub fn import_notice(title: &str, ingredient_count: usize) -> (r: String)
    ensures
        r@ == "Imported \""@ + title@ + "\" ("@ + decimal(ingredient_count as nat) + " ingredients)"@,
{
    let n = decimal_text(ingredient_count as u64);
    String::from_str("Imported \"").concat(title).concat("\" (").concat(n.as_str()).concat(" ingredients)")
}

/// Notice shown when an import failed.
pub fn import_error_notice(error: &str) -> (r: String)
    ensures
        r@ == "Error: "@ + error@,
{
    String::from_str("Error: ").concat(error)
}

/// Notice shown after a recipe has been deleted.
pub fn deletion_notice(title: &str) -> (r: String)
    ensures
        r@ == "Deleted recipe \""@ + title@ + "\""@,
{
    String::from_str("Deleted recipe \"").concat(title).concat("\"")
}

/// Notice shown after a recipe has been added from the form.
pub fn added_notice(title: &str) -> (r: String)
    ensures
        r@ == "Added \""@ + title@ + "\" to recipe book"@,
{
    String::from_str("Added \"").concat(title).concat("\" to recipe book")
}

/// A star of the rating row is lit when its value is at most the rating.
pub fn star_lit(star: u8, rating: u8) -> (r: bool)
    ensures
        r == (star <= rating),
{
    star <= rating
}

/// Glyph of a star of the rating row.
pub fn star_glyph(star: u8, rating: u8) -> (r: &'static str)
    ensures
        r@ == (if star <= rating { "\u{2605}"@ } else { "\u{2606}"@ }),
{
    if star_lit(star, rating) { "\u{2605}" } else { "\u{2606}" }
}

/// CSS class of a star of the rating row.
pub fn star_class(star: u8, rating: u8) -> (r: &'static str)
    ensures
        r@ == (if star <= rating { "star active"@ } else { "star"@ }),
{
    if star_lit(star, rating) { "star active" } else { "star" }
}

/// Tooltip of a star of the rating row.
pub fn rate_tooltip(star: u8) -> (r: String)
    ensures
        r@ == "Rate "@ + decimal(star as nat) + " stars"@,
{
    let n = decimal_text(star as u64);
    String::from_str("Rate ").concat(n.as_str()).concat(" stars")
}


/// The form flags `(show_form, show_url_form)` after pressing "Add Recipe" /
/// "Cancel": the recipe form flips and the import form closes.
pub fn toggle_recipe_form(show_form: bool, show_url_form: bool) -> (r: (bool, bool))
    ensures
        r == (!show_form, false),
{
    (!show_form, false)
}

/// The form flags `(show_form, show_url_form)` after pressing "Import via
/// URL" / "Close Importer": the import form flips and the recipe form closes.
pub fn toggle_import_form(show_form: bool, show_url_form: bool) -> (r: (bool, bool))
    ensures
        r == (false, !show_url_form),
{
    (false, !show_url_form)
}


/// A row of the form that holds an ingredient: its trimmed name is not empty.
pub open spec fn is_filled(d: IngredientDraftView) -> bool {
    trimmed(d.name).len() > 0
}

/// Number of filled rows among the first `i` rows.
pub open spec fn filled_before(drafts: Seq<IngredientDraftView>, i: int) -> nat
    decreases i,
{
    if i <= 0 {
        0
    } else if is_filled(drafts[i - 1]) {
        filled_before(drafts, i - 1) + 1
    } else {
        filled_before(drafts, i - 1)
    }
}

proof fn lemma_filled_before_prefix(drafts: Seq<IngredientDraftView>, i: int)
    requires
        0 <= i < drafts.len(),
    ensures
        filled_before(drafts.drop_last(), i) == filled_before(drafts, i),
    decreases i,
{
    if i > 0 {
        lemma_filled_before_prefix(drafts, i - 1);
        assert(drafts.drop_last()[i - 1] == drafts[i - 1]);
    }
}

/// The form gives one ingredient per filled row, in row order: the ingredient
/// of the filled row `i` stands at the number of filled rows before it, and
/// carries row `i`'s trimmed name and unit, its staple mark and `quantities[i]`,
/// the amount read from that same row; blank rows give nothing.
pub proof fn lemma_drafted_rows(drafts: Seq<IngredientDraftView>, quantities: Seq<u64>)
    requires
        quantities.len() == drafts.len(),
    ensures
        drafted(drafts, quantities).len() == filled_before(drafts, drafts.len() as int),
        forall|i: int| 0 <= i < drafts.len() && is_filled(#[trigger] drafts[i]) ==>
            drafted(drafts, quantities)[filled_before(drafts, i) as int] == (IngredientItemView {
                name: trimmed(drafts[i].name),
                quantity_bits: quantities[i],
                unit: trimmed(drafts[i].unit),
                is_pantry_staple: drafts[i].is_pantry_staple,
            }),
{
    lemma_drafted_rows_general(drafts, quantities);
}

proof fn lemma_filled_before_grows(drafts: Seq<IngredientDraftView>, i: int, j: int)
    requires
        0 <= i < j <= drafts.len(),
        is_filled(drafts[i]),
    ensures
        filled_before(drafts, i) < filled_before(drafts, j),
    decreases j - i,
{
    if j > i + 1 {
        lemma_filled_before_grows(drafts, i, j - 1);
    }
}

proof fn lemma_drafted_rows_general(drafts: Seq<IngredientDraftView>, quantities: Seq<u64>)
    requires
        quantities.len() >= drafts.len(),
    ensures
        drafted(drafts, quantities).len() == filled_before(drafts, drafts.len() as int),
        forall|i: int| 0 <= i < drafts.len() && is_filled(#[trigger] drafts[i]) ==>
            drafted(drafts, quantities)[filled_before(drafts, i) as int] == (IngredientItemView {
                name: trimmed(drafts[i].name),
                quantity_bits: quantities[i],
                unit: trimmed(drafts[i].unit),
                is_pantry_staple: drafts[i].is_pantry_staple,
            }),
    decreases drafts.len(),
{
    if drafts.len() > 0 {
        let rest = drafts.drop_last();
        let n = drafts.len() - 1;
        lemma_drafted_rows_general(rest, quantities);
        lemma_filled_before_prefix(drafts, n);
        let d = drafted(drafts, quantities);
        let dr = drafted(rest, quantities);
        assert forall|i: int| 0 <= i < drafts.len() && is_filled(#[trigger] drafts[i]) implies
            d[filled_before(drafts, i) as int] == (IngredientItemView {
                name: trimmed(drafts[i].name),
                quantity_bits: quantities[i],
                unit: trimmed(drafts[i].unit),
                is_pantry_staple: drafts[i].is_pantry_staple,
            }) by {
            if i < n {
                lemma_filled_before_prefix(drafts, i);
                assert(rest[i] == drafts[i]);
                assert(is_filled(rest[i]));
                lemma_filled_before_grows(rest, i, n);
                assert(d[filled_before(drafts, i) as int] == dr[filled_before(rest, i) as int]);
            }
        }
    }
}

} // verus!
