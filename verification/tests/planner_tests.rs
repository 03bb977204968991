use munchbox::model::{IngredientItem, MealPlanEntry, Recipe};
use munchbox::planner::{
    aggregate_ingredients, aggregation_notice, assign_meal, assign_meal_with_id, groceries_from_totals,
    planned_ingredients, selected_recipe_id, DAYS, MEAL_TYPES,
};

fn ing(name: &str, amount: f64, unit: &str, staple: bool) -> IngredientItem {
    IngredientItem {
        name: name.to_string(),
        quantity_bits: amount.to_bits(),
        unit: unit.to_string(),
        is_pantry_staple: staple,
    }
}

fn recipe(id: &str, title: &str, ingredients: Vec<IngredientItem>) -> Recipe {
    Recipe {
        id: id.to_string(),
        title: title.to_string(),
        ingredients,
        instructions: String::new(),
        emoji: String::new(),
        rating: 3,
    }
}

fn entry(id: &str, day: &str, meal: &str, recipe_id: &str) -> MealPlanEntry {
    MealPlanEntry {
        id: id.to_string(),
        day: day.to_string(),
        meal_type: meal.to_string(),
        recipe_id: recipe_id.to_string(),
        recipe_title: String::new(),
    }
}

fn book() -> Vec<Recipe> {
    vec![
        recipe("r1", "Tacos", vec![ing("Salt", 1.0, "pinch", true), ing(" Tortillas ", 2.0, "Pcs", false)]),
        recipe("r2", "Eggs", vec![ing("salt", 1.0, "Pinch ", false), ing("Eggs", 2.0, "Pcs", false)]),
    ]
}

#[test]
fn planned_ingredients_follow_the_plan() {
    let recipes = book();
    let plans = vec![
        entry("a", "Monday", "Lunch", "r1"),
        entry("b", "Monday", "Dinner", "missing"),
        entry("c", "Tuesday", "Lunch", "r2"),
    ];
    let ings = planned_ingredients(&plans, &recipes);
    let names: Vec<&str> = ings.iter().map(|i| i.name.as_str()).collect();
    assert_eq!(names, vec!["Salt", " Tortillas ", "salt", "Eggs"]);
}

#[test]
fn aggregation_merges_case_and_space_variants() {
    let recipes = book();
    let plans = vec![entry("a", "Monday", "Lunch", "r1"), entry("c", "Tuesday", "Lunch", "r2")];
    let ings = planned_ingredients(&plans, &recipes);
    let lines = aggregate_ingredients(&ings);
    assert_eq!(lines.len(), 3);
    assert_eq!(lines[0].name, "Eggs");
    assert_eq!(lines[0].sources, vec![3]);
    assert_eq!(lines[1].name, "Salt");
    assert_eq!(lines[1].unit, "pinch");
    assert_eq!(lines[1].name_key, "salt");
    assert_eq!(lines[1].unit_key, "pinch");
    assert!(lines[1].is_pantry_staple);
    assert_eq!(lines[1].sources, vec![0, 2]);
    assert_eq!(lines[2].name, "Tortillas");
    assert_eq!(lines[2].unit, "Pcs");
    assert!(!lines[2].is_pantry_staple);
    assert_eq!(lines[2].sources, vec![1]);
}

#[test]
fn aggregation_keeps_units_apart_in_mention_order() {
    let ings = vec![ing("Milk", 200.0, "ml", false), ing("Apple", 1.0, "Pcs", false), ing("milk", 1.0, "L", false)];
    let lines = aggregate_ingredients(&ings);
    assert_eq!(lines.len(), 3);
    assert_eq!(lines[0].name, "Apple");
    assert_eq!(lines[1].unit, "ml");
    assert_eq!(lines[2].unit, "L");
    assert_eq!(lines[2].name, "milk");
}

#[test]
fn aggregation_orders_by_code_point() {
    let ings = vec![ing("zucchini", 1.0, "", false), ing("Zest", 1.0, "", false), ing("apple", 1.0, "", false)];
    let lines = aggregate_ingredients(&ings);
    let keys: Vec<&str> = lines.iter().map(|l| l.name_key.as_str()).collect();
    assert_eq!(keys, vec!["apple", "zest", "zucchini"]);
}

#[test]
fn aggregation_of_nothing_is_empty() {
    let lines = aggregate_ingredients(&Vec::new());
    assert!(lines.is_empty());
}

#[test]
fn groceries_from_totals_fill_the_lines() {
    let ings = vec![ing("Salt", 1.0, "pinch", true), ing("salt", 2.0, "pinch", false)];
    let lines = aggregate_ingredients(&ings);
    let totals = vec![3.0f64.to_bits()];
    let items = groceries_from_totals(&lines, &totals);
    assert_eq!(items.len(), 1);
    assert_eq!(items[0].name, "Salt");
    assert_eq!(items[0].unit, "pinch");
    assert_eq!(f64::from_bits(items[0].quantity_bits), 3.0);
    assert!(!items[0].bought);
    assert!(items[0].is_pantry_staple);
    assert_eq!(items[0].id.len(), 36);
}

#[test]
fn aggregation_notice_counts_lines() {
    assert_eq!(aggregation_notice(3), "Aggregated 3 unique items into Grocery List.");
    assert_eq!(aggregation_notice(12), "Aggregated 12 unique items into Grocery List.");
}

#[test]
fn assigning_then_selecting_reads_back() {
    let recipes = book();
    let plans = assign_meal(&Vec::new(), &recipes, "Monday", "Lunch", "r2");
    assert_eq!(plans.len(), 1);
    assert_eq!(plans[0].recipe_title, "Eggs");
    assert_eq!(plans[0].id.len(), 36);
    assert_eq!(selected_recipe_id(&plans, "Monday", "Lunch"), "r2");
    assert_eq!(selected_recipe_id(&plans, "Monday", "Dinner"), "");
}

#[test]
fn assigning_replaces_the_slot_and_keeps_others() {
    let recipes = book();
    let plans = vec![entry("a", "Monday", "Lunch", "r1"), entry("b", "Friday", "Dinner", "r2")];
    let next = assign_meal_with_id(&plans, &recipes, "Monday", "Lunch", "r2", "new".to_string());
    assert_eq!(next.len(), 2);
    assert_eq!(next[0].id, "b");
    assert_eq!(next[1].id, "new");
    assert_eq!(next[1].day, "Monday");
    assert_eq!(next[1].meal_type, "Lunch");
    assert_eq!(next[1].recipe_id, "r2");
    assert_eq!(selected_recipe_id(&next, "Monday", "Lunch"), "r2");
    assert_eq!(selected_recipe_id(&next, "Friday", "Dinner"), "r2");
}

#[test]
fn assigning_nothing_or_an_unknown_recipe_clears_the_slot() {
    let recipes = book();
    let plans = vec![entry("a", "Monday", "Lunch", "r1")];
    let cleared = assign_meal_with_id(&plans, &recipes, "Monday", "Lunch", "", "x".to_string());
    assert!(cleared.is_empty());
    let unknown = assign_meal_with_id(&plans, &recipes, "Monday", "Lunch", "nope", "x".to_string());
    assert!(unknown.is_empty());
}

#[test]
fn planner_grid_has_seven_days_of_three_meals() {
    assert_eq!(DAYS.len(), 7);
    assert_eq!(DAYS[0], "Monday");
    assert_eq!(DAYS[6], "Sunday");
    assert_eq!(MEAL_TYPES, ["Breakfast", "Lunch", "Dinner"]);
}

fn line_total(ings: &[IngredientItem], sources: &[usize]) -> f64 {
    let mut total = 0.0f64;
    for &i in sources {
        total += f64::from_bits(ings[i].quantity_bits);
    }
    total
}

#[test]
fn planning_a_recipe_again_doubles_its_lines() {
    let recipes = book();
    let once = vec![entry("a", "Monday", "Lunch", "r1")];
    let twice = vec![entry("a", "Monday", "Lunch", "r1"), entry("b", "Tuesday", "Dinner", "r1")];
    let ings_once = planned_ingredients(&once, &recipes);
    let ings_twice = planned_ingredients(&twice, &recipes);
    let lines_once = aggregate_ingredients(&ings_once);
    let lines_twice = aggregate_ingredients(&ings_twice);
    assert_eq!(lines_once.len(), lines_twice.len());
    for (a, b) in lines_once.iter().zip(lines_twice.iter()) {
        assert_eq!(a.name, b.name);
        assert_eq!(a.unit, b.unit);
        assert_eq!(a.is_pantry_staple, b.is_pantry_staple);
        assert_eq!(b.sources.len(), 2 * a.sources.len());
        assert_eq!(line_total(&ings_twice, &b.sources), 2.0 * line_total(&ings_once, &a.sources));
    }
    assert_eq!(lines_twice[0].sources, vec![0, 2]);
}

#[test]
fn fresh_ids_have_the_uuid_shape() {
    let plans = assign_meal(&Vec::new(), &book(), "Monday", "Lunch", "r1");
    let id: Vec<char> = plans[0].id.chars().collect();
    assert_eq!(id.len(), 36);
    assert_eq!(id[14], '4');
    assert!(matches!(id[19], '8' | '9' | 'a' | 'b'));
    for (i, c) in id.iter().enumerate() {
        if i == 8 || i == 13 || i == 18 || i == 23 {
            assert_eq!(*c, '-');
        } else {
            assert!(c.is_ascii_hexdigit() && !c.is_ascii_uppercase());
        }
    }
}
