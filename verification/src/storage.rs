//! What the app keeps in the browser's local storage, and the recipe book
//! that a first start begins with.

use vstd::prelude::*;
use vstd::string::StringExecFns;
use crate::model::{IngredientItem, IngredientItemView, Recipe, RecipeView};

verus! {

/// Storage key of the grocery checklist.
pub const GROCERY_KEY: &'static str = "munchbox_groceries";

/// Storage key of the recipe book.
pub const RECIPES_KEY: &'static str = "munchbox_recipes";

/// Storage key of the weekly plan.
pub const MEAL_PLAN_KEY: &'static str = "munchbox_meal_plans";

/// Bit pattern of the amount one.
pub const AMOUNT_ONE: u64 = 0x3ff0000000000000;

/// Bit pattern of the amount two.
pub const AMOUNT_TWO: u64 = 0x4000000000000000;

/// Bit pattern of the amount three.
pub const AMOUNT_THREE: u64 = 0x4008000000000000;

/// Bit pattern of the amount thirty.
pub const AMOUNT_THIRTY: u64 = 0x403e000000000000;

/// Bit pattern of the amount fifty.
pub const AMOUNT_FIFTY: u64 = 0x4049000000000000;

/// Bit pattern of the amount one hundred fifty.
pub const AMOUNT_ONE_FIFTY: u64 = 0x4062c00000000000;

/// Bit pattern of the amount two hundred.
pub const AMOUNT_TWO_HUNDRED: u64 = 0x4069000000000000;

pub open spec fn ingredient_view(name: Seq<char>, quantity_bits: u64, unit: Seq<char>, staple: bool) -> IngredientItemView {
    IngredientItemView { name, quantity_bits, unit, is_pantry_staple: staple }
}

fn ingredient(name: &str, quantity_bits: u64, unit: &str, staple: bool) -> (r: IngredientItem)
    ensures
        r@ == ingredient_view(name@, quantity_bits, unit@, staple),
{
    IngredientItem {
        name: String::from_str(name),
        quantity_bits,
        unit: String::from_str(unit),
        is_pantry_staple: staple,
    }
}

/// The recipe book of a first start.
pub open spec fn default_book() -> Seq<RecipeView> {
    seq![
        RecipeView {
            id: "1"@,
            title: "Database Tacos"@,
            ingredients: seq![
                ingredient_view("Tortillas"@, AMOUNT_TWO, "Pcs"@, false),
                ingredient_view("Ground Beef"@, AMOUNT_ONE_FIFTY, "g"@, false),
                ingredient_view("Salsa"@, AMOUNT_TWO, "tbsp"@, false),
                ingredient_view("Cheddar Cheese"@, AMOUNT_FIFTY, "g"@, false),
                ingredient_view("Salt"@, AMOUNT_ONE, "pinch"@, true),
                ingredient_view("Black Pepper"@, AMOUNT_ONE, "pinch"@, true),
            ],
            instructions: "1. Brown beef in skillet with salt & pepper.\n2. Warm tortillas.\n3. Assemble tacos with salsa & cheese."@,
            emoji: "\u{1F32E}"@,
            rating: 5,
        },
        RecipeView {
            id: "2"@,
            title: "Avocado Toast & Egg"@,
            ingredients: seq![
                ingredient_view("Bread"@, AMOUNT_TWO, "Slices"@, false),
                ingredient_view("Avocado"@, AMOUNT_ONE, "Pcs"@, false),
                ingredient_view("Eggs"@, AMOUNT_TWO, "Pcs"@, false),
                ingredient_view("Salt"@, AMOUNT_ONE, "pinch"@, true),
                ingredient_view("Black Pepper"@, AMOUNT_ONE, "pinch"@, true),
                ingredient_view("Olive Oil"@, AMOUNT_ONE, "tsp"@, true),
            ],
            instructions: "1. Toast bread.\n2. Mash avocado with salt and pepper.\n3. Fry eggs in olive oil and assemble."@,
            emoji: "\u{1F951}"@,
            rating: 5,
        },
        RecipeView {
            id: "3"@,
            title: "Garlic Butter Pasta"@,
            ingredients: seq![
                ingredient_view("Pasta"@, AMOUNT_TWO_HUNDRED, "g"@, false),
                ingredient_view("Garlic Cloves"@, AMOUNT_THREE, "Pcs"@, false),
                ingredient_view("Butter"@, AMOUNT_FIFTY, "g"@, false),
                ingredient_view("Parmesan Cheese"@, AMOUNT_THIRTY, "g"@, false),
                ingredient_view("Salt"@, AMOUNT_ONE, "tsp"@, true),
                ingredient_view("Black Pepper"@, AMOUNT_ONE, "pinch"@, true),
            ],
            instructions: "1. Boil pasta in salted water.\n2. Saut\u{e9} garlic in butter.\n3. Toss pasta and top with cheese & pepper."@,
            emoji: "\u{1F35D}"@,
            rating: 5,
        },
    ]
}

fn six(
    a: IngredientItem,
    b: IngredientItem,
    c: IngredientItem,
    d: IngredientItem,
    e: IngredientItem,
    f: IngredientItem,
) -> (r: Vec<IngredientItem>)
    ensures
        r.deep_view() == seq![a@, b@, c@, d@, e@, f@],
{
    let ghost v = seq![a@, b@, c@, d@, e@, f@];
    let mut r: Vec<IngredientItem> = Vec::new();
    r.push(a);
    r.push(b);
    r.push(c);
    r.push(d);
    r.push(e);
    r.push(f);
    assert(r.deep_view() =~= v);
    r
}

/// The recipe book of a first start: three sample recipes.
pub fn default_recipes() -> (r: Vec<Recipe>)
    ensures
        r.deep_view() == default_book(),
{
    let tacos = Recipe {
        id: String::from_str("1"),
        title: String::from_str("Database Tacos"),
        ingredients: six(
            ingredient("Tortillas", AMOUNT_TWO, "Pcs", false),
            ingredient("Ground Beef", AMOUNT_ONE_FIFTY, "g", false),
            ingredient("Salsa", AMOUNT_TWO, "tbsp", false),
            ingredient("Cheddar Cheese", AMOUNT_FIFTY, "g", false),
            ingredient("Salt", AMOUNT_ONE, "pinch", true),
            ingredient("Black Pepper", AMOUNT_ONE, "pinch", true),
        ),
        instructions: String::from_str(
            "1. Brown beef in skillet with salt & pepper.\n2. Warm tortillas.\n3. Assemble tacos with salsa & cheese.",
        ),
        emoji: String::from_str("\u{1F32E}"),
        rating: 5,
    };
    let toast = Recipe {
        id: String::from_str("2"),
        title: String::from_str("Avocado Toast & Egg"),
        ingredients: six(
            ingredient("Bread", AMOUNT_TWO, "Slices", false),
            ingredient("Avocado", AMOUNT_ONE, "Pcs", false),
            ingredient("Eggs", AMOUNT_TWO, "Pcs", false),
            ingredient("Salt", AMOUNT_ONE, "pinch", true),
            ingredient("Black Pepper", AMOUNT_ONE, "pinch", true),
            ingredient("Olive Oil", AMOUNT_ONE, "tsp", true),
        ),
        instructions: String::from_str(
            "1. Toast bread.\n2. Mash avocado with salt and pepper.\n3. Fry eggs in olive oil and assemble.",
        ),
        emoji: String::from_str("\u{1F951}"),
        rating: 5,
    };
    let pasta = Recipe {
        id: String::from_str("3"),
        title: String::from_str("Garlic Butter Pasta"),
        ingredients: six(
            ingredient("Pasta", AMOUNT_TWO_HUNDRED, "g", false),
            ingredient("Garlic Cloves", AMOUNT_THREE, "Pcs", false),
            ingredient("Butter", AMOUNT_FIFTY, "g", false),
            ingredient("Parmesan Cheese", AMOUNT_THIRTY, "g", false),
            ingredient("Salt", AMOUNT_ONE, "tsp", true),
            ingredient("Black Pepper", AMOUNT_ONE, "pinch", true),
        ),
        instructions: String::from_str(
            "1. Boil pasta in salted water.\n2. Saut\u{e9} garlic in butter.\n3. Toss pasta and top with cheese & pepper.",
        ),
        emoji: String::from_str("\u{1F35D}"),
        rating: 5,
    };
    let ghost book = seq![tacos@, toast@, pasta@];
    let mut r: Vec<Recipe> = Vec::new();
    r.push(tacos);
    r.push(toast);
    r.push(pasta);
    assert(r.deep_view() =~= book);
    r
}

/// The recipe book to show at start: the stored one, or, when none is stored
/// (or it is empty), the sample book, which must then be stored; the flag
/// says whether to store it.
pub fn recipes_or_defaults(stored: Vec<Recipe>) -> (r: (Vec<Recipe>, bool))
    ensures
        stored.len() == 0 ==> r.0.deep_view() == default_book() && r.1,
        stored.len() > 0 ==> r.0 == stored && !r.1,
        r.0.len() > 0,
{
    if stored.len() == 0 {
        let d = default_recipes();
        assert(d.deep_view().len() == default_book().len());
        (d, true)
    } else {
        (stored, false)
    }
}

} // verus!
