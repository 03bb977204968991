//! The tabs of the app's frame.

use vstd::prelude::*;
use crate::text::same_text;

verus! {

/// Tab of the recipe book.
pub const TAB_RECIPES: &'static str = "recipes";

/// Tab of the weekly planner, the one shown at start.
pub const TAB_PLAN: &'static str = "plan";

/// Tab of the grocery checklist.
pub const TAB_GROCERY: &'static str = "grocery";

/// CSS class of a tab's button: `active` for the tab on show.
pub fn tab_class(active: &str, tab: &str) -> (r: &'static str)
    ensures
        r@ == (if active@ == tab@ { "active"@ } else { ""@ }),
{
    if same_text(active, tab) { "active" } else { "" }
}

/// Style of a tab's panel: shown only for the tab on show.
pub fn tab_style(active: &str, tab: &str) -> (r: &'static str)
    ensures
        r@ == (if active@ == tab@ { "display: block;"@ } else { "display: none;"@ }),
{
    if same_text(active, tab) { "display: block;" } else { "display: none;" }
}

} // verus!
