use munchbox::model::{IngredientDraft, IngredientItem, Recipe};
use munchbox::recipe_book::{
    add_draft_row, added_notice, create_recipe, create_recipe_with_id, delete_recipe, deletion_notice,
    find_recipe, import_error_notice, import_notice, ingredients_from_drafts, initial_drafts, rate_recipe,
    rate_tooltip, remove_draft_row, scrape_target, scraping_notice, star_class, star_glyph,
};
use munchbox::storage::{default_recipes, recipes_or_defaults, GROCERY_KEY, MEAL_PLAN_KEY, RECIPES_KEY};

fn recipe(id: &str, title: &str) -> Recipe {
    Recipe {
        id: id.to_string(),
        title: title.to_string(),
        ingredients: vec![IngredientItem {
            name: "Salt".to_string(),
            quantity_bits: 1.0f64.to_bits(),
            unit: "pinch".to_string(),
            is_pantry_staple: true,
        }],
        instructions: "Mix.".to_string(),
        emoji: String::new(),
        rating: 2,
    }
}

fn draft(name: &str, unit: &str, staple: bool) -> IngredientDraft {
    IngredientDraft { name: name.to_string(), quantity: "1".to_string(), unit: unit.to_string(), is_pantry_staple: staple }
}

#[test]
fn finding_returns_the_first_match() {
    let recipes = vec![recipe("1", "A"), recipe("2", "B"), recipe("2", "C")];
    assert_eq!(find_recipe(&recipes, "2"), Some(1));
    assert_eq!(find_recipe(&recipes, "9"), None);
}

#[test]
fn deleting_removes_and_returns_the_recipe() {
    let mut recipes = vec![recipe("1", "A"), recipe("2", "B")];
    let removed = delete_recipe(&mut recipes, "1").unwrap();
    assert_eq!(removed.title, "A");
    assert_eq!(recipes.len(), 1);
    assert_eq!(recipes[0].id, "2");
    assert!(delete_recipe(&mut recipes, "1").is_none());
    assert_eq!(recipes.len(), 1);
    assert_eq!(deletion_notice("A"), "Deleted recipe \"A\"");
}

#[test]
fn rating_updates_only_the_match() {
    let mut recipes = vec![recipe("1", "A"), recipe("2", "B")];
    assert!(rate_recipe(&mut recipes, "2", 5));
    assert_eq!(recipes[1].rating, 5);
    assert_eq!(recipes[1].title, "B");
    assert_eq!(recipes[1].ingredients.len(), 1);
    assert_eq!(recipes[0].rating, 2);
    assert!(!rate_recipe(&mut recipes, "7", 1));
}

#[test]
fn the_form_keeps_at_least_one_row() {
    let mut drafts = initial_drafts();
    assert_eq!(drafts.len(), 1);
    assert_eq!(drafts[0].quantity, "1");
    assert_eq!(drafts[0].unit, "Pcs");
    assert!(drafts[0].name.is_empty());
    assert!(!remove_draft_row(&mut drafts, 0));
    assert_eq!(drafts.len(), 1);
    add_draft_row(&mut drafts);
    assert_eq!(drafts.len(), 2);
    assert!(remove_draft_row(&mut drafts, 1));
    assert_eq!(drafts.len(), 1);
}

#[test]
fn form_rows_become_trimmed_ingredients() {
    let drafts = vec![draft(" Flour ", " g ", false), draft("   ", "Pcs", false), draft("Salt", "pinch", true)];
    let quantities = vec![500.0f64.to_bits(), 1.0f64.to_bits(), 1.0f64.to_bits()];
    let ings = ingredients_from_drafts(&drafts, &quantities);
    assert_eq!(ings.len(), 2);
    assert_eq!(ings[0].name, "Flour");
    assert_eq!(ings[0].unit, "g");
    assert_eq!(f64::from_bits(ings[0].quantity_bits), 500.0);
    assert_eq!(ings[1].name, "Salt");
    assert!(ings[1].is_pantry_staple);
}

#[test]
fn creating_needs_a_title() {
    let drafts = vec![draft("Flour", "g", false)];
    let quantities = vec![2.0f64.to_bits()];
    assert!(create_recipe("  ", "x", 4, &drafts, &quantities).is_none());
    let r = create_recipe_with_id(" Bread ", "Bake it", 4, &drafts, &quantities, "id9".to_string()).unwrap();
    assert_eq!(r.id, "id9");
    assert_eq!(r.title, "Bread");
    assert_eq!(r.instructions, "Bake it");
    assert_eq!(r.emoji, "");
    assert_eq!(r.rating, 4);
    assert_eq!(r.ingredients.len(), 1);
    let fresh = create_recipe("Bread", "", 1, &drafts, &quantities).unwrap();
    assert_eq!(fresh.id.len(), 36);
    assert_eq!(added_notice("Bread"), "Added \"Bread\" to recipe book");
}

#[test]
fn importing_messages() {
    assert_eq!(scrape_target("  https://x.test/r  "), Some("https://x.test/r".to_string()));
    assert_eq!(scrape_target("   "), None);
    assert_eq!(scraping_notice(), "Scraping recipe content & ingredients...");
    assert_eq!(import_notice("Soup", 7), "Imported \"Soup\" (7 ingredients)");
    assert_eq!(import_error_notice("boom"), "Error: boom");
}

#[test]
fn stars_light_up_to_the_rating() {
    assert_eq!(star_glyph(3, 3), "\u{2605}");
    assert_eq!(star_glyph(4, 3), "\u{2606}");
    assert_eq!(star_class(1, 3), "star active");
    assert_eq!(star_class(5, 3), "star");
    assert_eq!(rate_tooltip(5), "Rate 5 stars");
}

#[test]
fn the_sample_book() {
    let book = default_recipes();
    assert_eq!(book.len(), 3);
    assert_eq!(book[0].title, "Database Tacos");
    assert_eq!(book[1].title, "Avocado Toast & Egg");
    assert_eq!(book[2].title, "Garlic Butter Pasta");
    assert_eq!(book[0].ingredients.len(), 6);
    assert_eq!(f64::from_bits(book[0].ingredients[1].quantity_bits), 150.0);
    assert_eq!(book[0].ingredients[1].name, "Ground Beef");
    assert_eq!(f64::from_bits(book[2].ingredients[0].quantity_bits), 200.0);
    assert_eq!(f64::from_bits(book[2].ingredients[3].quantity_bits), 30.0);
    assert_eq!(f64::from_bits(book[2].ingredients[1].quantity_bits), 3.0);
    assert_eq!(f64::from_bits(book[2].ingredients[2].quantity_bits), 50.0);
    assert_eq!(f64::from_bits(book[1].ingredients[0].quantity_bits), 2.0);
    assert_eq!(f64::from_bits(book[1].ingredients[1].quantity_bits), 1.0);
    assert!(book[1].ingredients[5].is_pantry_staple);
    assert_eq!(book[0].emoji, "\u{1F32E}");
    assert!(book[2].instructions.contains("Saut\u{e9}"));
    assert!(book.iter().all(|r| r.rating == 5));
}

#[test]
fn an_empty_store_starts_with_the_sample_book() {
    let (book, store) = recipes_or_defaults(Vec::new());
    assert_eq!(book.len(), 3);
    assert!(store);
    let (book, store) = recipes_or_defaults(vec![recipe("x", "Mine")]);
    assert_eq!(book.len(), 1);
    assert!(!store);
    assert_eq!(GROCERY_KEY, "munchbox_groceries");
    assert_eq!(RECIPES_KEY, "munchbox_recipes");
    assert_eq!(MEAL_PLAN_KEY, "munchbox_meal_plans");
}
