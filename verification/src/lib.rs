//! Verified core of the MunchBox meal-planning app: recipes, a weekly
//! meal plan, and the grocery checklist that the plan produces.

pub mod text;
pub mod ids;
pub mod model;
pub mod recipe_book;
pub mod planner;
pub mod grocery;
pub mod storage;
pub mod endpoints;
pub mod shell;
