//! The records the app keeps: grocery items, recipes with their
//! ingredients, meal-plan entries, and the rows of the recipe form.
//!
//! Amounts are measured in floating point by the app; the library never does
//! arithmetic on them and carries each one as the IEEE-754 bit pattern of the
//! amount (`quantity_bits`).

use vstd::prelude::*;

verus! {

/// One line of the grocery checklist.
pub struct GroceryItem {
    pub id: String,
    pub name: String,
    pub quantity_bits: u64,
    pub unit: String,
    pub bought: bool,
    pub is_pantry_staple: bool,
}

/// One ingredient of a recipe.
pub struct IngredientItem {
    pub name: String,
    pub quantity_bits: u64,
    pub unit: String,
    pub is_pantry_staple: bool,
}

/// A recipe of the recipe book.
pub struct Recipe {
    pub id: String,
    pub title: String,
    pub ingredients: Vec<IngredientItem>,
    pub instructions: String,
    pub emoji: String,
    pub rating: u8,
}

/// A recipe assigned to one meal slot (day and meal type) of the week.
pub struct MealPlanEntry {
    pub id: String,
    pub day: String,
    pub meal_type: String,
    pub recipe_id: String,
    pub recipe_title: String,
}

/// One ingredient row of the "create recipe" form, as typed.
pub struct IngredientDraft {
    pub name: String,
    pub quantity: String,
    pub unit: String,
    pub is_pantry_staple: bool,
}

pub struct GroceryItemView {
    pub id: Seq<char>,
    pub name: Seq<char>,
    pub quantity_bits: u64,
    pub unit: Seq<char>,
    pub bought: bool,
    pub is_pantry_staple: bool,
}

pub struct IngredientItemView {
    pub name: Seq<char>,
    pub quantity_bits: u64,
    pub unit: Seq<char>,
    pub is_pantry_staple: bool,
}

pub struct RecipeView {
    pub id: Seq<char>,
    pub title: Seq<char>,
    pub ingredients: Seq<IngredientItemView>,
    pub instructions: Seq<char>,
    pub emoji: Seq<char>,
    pub rating: u8,
}

pub struct MealPlanEntryView {
    pub id: Seq<char>,
    pub day: Seq<char>,
    pub meal_type: Seq<char>,
    pub recipe_id: Seq<char>,
    pub recipe_title: Seq<char>,
}

pub struct IngredientDraftView {
    pub name: Seq<char>,
    pub quantity: Seq<char>,
    pub unit: Seq<char>,
    pub is_pantry_staple: bool,
}

impl View for GroceryItem {
    type V = GroceryItemView;

    open spec fn view(&self) -> GroceryItemView {
        GroceryItemView {
            id: self.id@,
            name: self.name@,
            quantity_bits: self.quantity_bits,
            unit: self.unit@,
            bought: self.bought,
            is_pantry_staple: self.is_pantry_staple,
        }
    }
}

impl DeepView for GroceryItem {
    type V = GroceryItemView;

    open spec fn deep_view(&self) -> GroceryItemView {
        self@
    }
}

impl View for IngredientItem {
    type V = IngredientItemView;

    open spec fn view(&self) -> IngredientItemView {
        IngredientItemView {
            name: self.name@,
            quantity_bits: self.quantity_bits,
            unit: self.unit@,
            is_pantry_staple: self.is_pantry_staple,
        }
    }
}

impl DeepView for IngredientItem {
    type V = IngredientItemView;

    open spec fn deep_view(&self) -> IngredientItemView {
        self@
    }
}

impl View for Recipe {
    type V = RecipeView;

    open spec fn view(&self) -> RecipeView {
        RecipeView {
            id: self.id@,
            title: self.title@,
            ingredients: self.ingredients.deep_view(),
            instructions: self.instructions@,
            emoji: self.emoji@,
            rating: self.rating,
        }
    }
}

impl DeepView for Recipe {
    type V = RecipeView;

    open spec fn deep_view(&self) -> RecipeView {
        self@
    }
}

impl View for MealPlanEntry {
    type V = MealPlanEntryView;

    open spec fn view(&self) -> MealPlanEntryView {
        MealPlanEntryView {
            id: self.id@,
            day: self.day@,
            meal_type: self.meal_type@,
            recipe_id: self.recipe_id@,
            recipe_title: self.recipe_title@,
        }
    }
}

impl DeepView for MealPlanEntry {
    type V = MealPlanEntryView;

    open spec fn deep_view(&self) -> MealPlanEntryView {
        self@
    }
}

impl View for IngredientDraft {
    type V = IngredientDraftView;

    open spec fn view(&self) -> IngredientDraftView {
        IngredientDraftView {
            name: self.name@,
            quantity: self.quantity@,
            unit: self.unit@,
            is_pantry_staple: self.is_pantry_staple,
        }
    }
}

impl DeepView for IngredientDraft {
    type V = IngredientDraftView;

    open spec fn deep_view(&self) -> IngredientDraftView {
        self@
    }
}

impl Clone for GroceryItem {
    fn clone(&self) -> (r: Self)
        ensures
            r@ == self@,
    {
        GroceryItem {
            id: self.id.clone(),
            name: self.name.clone(),
            quantity_bits: self.quantity_bits,
            unit: self.unit.clone(),
            bought: self.bought,
            is_pantry_staple: self.is_pantry_staple,
        }
    }
}

impl Clone for IngredientItem {
    fn clone(&self) -> (r: Self)
        ensures
            r@ == self@,
    {
        IngredientItem {
            name: self.name.clone(),
            quantity_bits: self.quantity_bits,
            unit: self.unit.clone(),
            is_pantry_staple: self.is_pantry_staple,
        }
    }
}

/// A copy of a list of ingredients.
pub fn copy_ingredients(items: &Vec<IngredientItem>) -> (r: Vec<IngredientItem>)
    ensures
        r.deep_view() == items.deep_view(),
{
    let mut r: Vec<IngredientItem> = Vec::new();
    for i in 0..items.len()
        invariant
            r.len() == i,
            forall|j: int| 0 <= j < i ==> (#[trigger] r@[j])@ == items@[j]@,
    {
        r.push(items[i].clone());
    }
    assert(r.deep_view() =~= items.deep_view());
    r
}

impl Clone for Recipe {
    fn clone(&self) -> (r: Self)
        ensures
            r@ == self@,
    {
        Recipe {
            id: self.id.clone(),
            title: self.title.clone(),
            ingredients: copy_ingredients(&self.ingredients),
            instructions: self.instructions.clone(),
            emoji: self.emoji.clone(),
            rating: self.rating,
        }
    }
}

impl Clone for MealPlanEntry {
    fn clone(&self) -> (r: Self)
        ensures
            r@ == self@,
    {
        MealPlanEntry {
            id: self.id.clone(),
            day: self.day.clone(),
            meal_type: self.meal_type.clone(),
            recipe_id: self.recipe_id.clone(),
            recipe_title: self.recipe_title.clone(),
        }
    }
}

impl Clone for IngredientDraft {
    fn clone(&self) -> (r: Self)
        ensures
            r@ == self@,
    {
        IngredientDraft {
            name: self.name.clone(),
            quantity: self.quantity.clone(),
            unit: self.unit.clone(),
            is_pantry_staple: self.is_pantry_staple,
        }
    }
}

} // verus!
