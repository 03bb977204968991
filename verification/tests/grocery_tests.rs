use munchbox::grocery::{
    add_grocery, add_grocery_with_id, begin_sync, check_mark, finish_sync, item_class, staples_toggle_label,
    sweep_bought, sync_badge_class, sync_badge_label, sync_button_disabled, toggle_bought, visible_groceries,
    SyncStatus,
};
use munchbox::model::GroceryItem;

fn item(id: &str, name: &str, bought: bool, staple: bool) -> GroceryItem {
    GroceryItem {
        id: id.to_string(),
        name: name.to_string(),
        quantity_bits: 1.0f64.to_bits(),
        unit: "Pcs".to_string(),
        bought,
        is_pantry_staple: staple,
    }
}

#[test]
fn adding_trims_and_starts_unbought() {
    let mut items = Vec::new();
    let added = add_grocery_with_id(&mut items, "  Milk ", 2.5f64.to_bits(), " L ", "m1".to_string());
    assert!(added);
    assert_eq!(items.len(), 1);
    assert_eq!(items[0].id, "m1");
    assert_eq!(items[0].name, "Milk");
    assert_eq!(items[0].unit, "L");
    assert_eq!(f64::from_bits(items[0].quantity_bits), 2.5);
    assert!(!items[0].bought);
    assert!(!items[0].is_pantry_staple);
}

#[test]
fn adding_a_blank_name_does_nothing() {
    let mut items = vec![item("a", "Bread", false, false)];
    assert!(!add_grocery(&mut items, " \t\n", 1.0f64.to_bits(), "Pcs"));
    assert_eq!(items.len(), 1);
}

#[test]
fn adding_gives_a_fresh_id() {
    let mut items = Vec::new();
    assert!(add_grocery(&mut items, "Eggs", 1.0f64.to_bits(), "Pcs"));
    assert!(add_grocery(&mut items, "Eggs", 1.0f64.to_bits(), "Pcs"));
    assert_eq!(items[0].id.len(), 36);
    assert_eq!(&items[0].id[8..9], "-");
    assert_ne!(items[0].id, items[1].id);
}

#[test]
fn toggling_flips_the_first_match_only() {
    let mut items = vec![item("a", "Bread", false, false), item("b", "Milk", false, false), item("b", "Milk2", false, false)];
    toggle_bought(&mut items, "b");
    assert!(!items[0].bought);
    assert!(items[1].bought);
    assert!(!items[2].bought);
}

#[test]
fn toggling_twice_restores() {
    let mut items = vec![item("a", "Bread", true, false)];
    toggle_bought(&mut items, "a");
    assert!(!items[0].bought);
    toggle_bought(&mut items, "a");
    assert!(items[0].bought);
}

#[test]
fn toggling_an_unknown_id_does_nothing() {
    let mut items = vec![item("a", "Bread", true, false)];
    toggle_bought(&mut items, "zz");
    assert!(items[0].bought);
    assert_eq!(items[0].name, "Bread");
}

#[test]
fn sweeping_removes_bought_items() {
    let mut items = vec![item("a", "Bread", true, false), item("b", "Milk", false, false), item("c", "Tea", true, true), item("d", "Jam", false, true)];
    sweep_bought(&mut items);
    let ids: Vec<&str> = items.iter().map(|i| i.id.as_str()).collect();
    assert_eq!(ids, vec!["b", "d"]);
    sweep_bought(&mut items);
    assert_eq!(items.len(), 2);
}

#[test]
fn hiding_staples_filters_them() {
    let items = vec![item("a", "Salt", false, true), item("b", "Milk", true, false)];
    let shown = visible_groceries(&items, true);
    assert_eq!(shown.len(), 1);
    assert_eq!(shown[0].id, "b");
    assert_eq!(visible_groceries(&items, false).len(), 2);
}

#[test]
fn sync_state_follows_the_answer() {
    assert!(begin_sync() == SyncStatus::Syncing);
    let (status, list) = finish_sync(Ok(vec![item("a", "Bread", false, false)]));
    assert!(status == SyncStatus::Success);
    assert_eq!(list.unwrap().len(), 1);
    let (status, list) = finish_sync(Err("Network error: down".to_string()));
    assert!(status == SyncStatus::Error("Network error: down".to_string()));
    assert!(list.is_none());
    assert!(status != SyncStatus::Error("other".to_string()));
}

#[test]
fn sync_badge_and_button() {
    assert!(sync_button_disabled(&SyncStatus::Syncing));
    assert!(!sync_button_disabled(&SyncStatus::Idle));
    assert_eq!(sync_badge_label(&SyncStatus::Idle), "Offline Mode");
    assert_eq!(sync_badge_label(&SyncStatus::Syncing), "Syncing...");
    assert_eq!(sync_badge_label(&SyncStatus::Success), "Synced with Server");
    assert_eq!(sync_badge_label(&SyncStatus::Error("x".to_string())), "Offline (Sync Error)");
    assert_eq!(sync_badge_class(&SyncStatus::Error("x".to_string())), "sync-status error");
    assert_eq!(sync_badge_class(&SyncStatus::Idle), "sync-status idle");
}

#[test]
fn checklist_labels() {
    assert_eq!(staples_toggle_label(true), "Show Pantry Staples");
    assert_eq!(staples_toggle_label(false), "Hide Pantry Staples");
    assert_eq!(item_class(true), "grocery-item bought");
    assert_eq!(item_class(false), "grocery-item");
    assert_eq!(check_mark(true), "[x]");
    assert_eq!(check_mark(false), "[ ]");
}
