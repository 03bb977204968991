use munchbox::endpoints::{
    backend_network_error, backend_url, delete_status_error, groceries_sync_url, network_error, payload_error,
    recipe_delete_url, recipe_scrape_url, scrape_parse_error, scrape_status_error, sync_parse_error,
    sync_status_error,
};
use munchbox::shell::{tab_class, tab_style, TAB_GROCERY, TAB_PLAN, TAB_RECIPES};
use munchbox::recipe_book::{toggle_import_form, toggle_recipe_form};
use munchbox::text::{decimal_text, same_text};

#[test]
fn backend_address_follows_the_host() {
    assert_eq!(backend_url(Some("192.168.1.5".to_string())), "http://192.168.1.5:3000");
    assert_eq!(backend_url(Some(String::new())), "http://localhost:3000");
    assert_eq!(backend_url(None), "http://localhost:3000");
}

#[test]
fn endpoint_addresses() {
    let base = "http://localhost:3000";
    assert_eq!(groceries_sync_url(base), "http://localhost:3000/api/groceries/sync");
    assert_eq!(recipe_scrape_url(base), "http://localhost:3000/api/recipes/scrape");
    assert_eq!(recipe_delete_url(base, "42"), "http://localhost:3000/api/recipes/42");
}

#[test]
fn request_failure_messages() {
    assert_eq!(payload_error("bad"), "Failed to serialize payload: bad");
    assert_eq!(network_error("down"), "Network error: down");
    assert_eq!(backend_network_error("down"), "Network error connecting to backend: down");
    assert_eq!(sync_status_error(503), "Server status error: 503");
    assert_eq!(sync_parse_error("eof"), "Failed to parse response JSON: eof");
    assert_eq!(scrape_status_error(404, "no page"), "Scraping failed (404): no page");
    assert_eq!(scrape_parse_error("eof"), "Failed to parse scraped recipe response: eof");
    assert_eq!(delete_status_error(500), "Failed to delete recipe from backend: 500");
}

#[test]
fn tabs_show_one_panel() {
    assert_eq!(tab_class(TAB_PLAN, "plan"), "active");
    assert_eq!(tab_class(TAB_PLAN, TAB_RECIPES), "");
    assert_eq!(tab_style(TAB_GROCERY, "grocery"), "display: block;");
    assert_eq!(tab_style(TAB_GROCERY, TAB_PLAN), "display: none;");
    assert!(same_text("a", "a"));
    assert!(!same_text("a", "A"));
}

#[test]
fn decimal_rendering() {
    assert_eq!(decimal_text(0), "0");
    assert_eq!(decimal_text(7), "7");
    assert_eq!(decimal_text(1234), "1234");
    assert_eq!(decimal_text(u64::MAX), "18446744073709551615");
}

#[test]
fn only_one_form_is_open() {
    assert_eq!(toggle_recipe_form(false, true), (true, false));
    assert_eq!(toggle_recipe_form(true, false), (false, false));
    assert_eq!(toggle_import_form(true, false), (false, true));
    assert_eq!(toggle_import_form(false, true), (false, false));
}
