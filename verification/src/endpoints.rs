//! Addresses of the backend's endpoints and the messages of failed requests.

use vstd::prelude::*;
use vstd::string::StringExecFns;
use crate::text::{decimal, decimal_text};

verus! {

/// The backend's base address for the page's host name, if the page knows one.
pub open spec fn backend_for(hostname: Option<Seq<char>>) -> Seq<char> {
    match hostname {
        Some(h) => if h.len() > 0 {
            "http://"@ + h + ":3000"@
        } else {
            "http://localhost:3000"@
        },
        None => "http://localhost:3000"@,
    }
}

/// The backend's base address: port 3000 of the page's host, or of
/// `localhost` when the host name is unknown or empty.
pub fn backend_url(hostname: Option<String>) -> (r: String)
    ensures
        r@ == backend_for(match hostname { Some(h) => Some(h@), None => None }),
{
    match hostname {
        Some(h) => {
            if h.as_str().is_empty() {
                String::from_str("http://localhost:3000")
            } else {
                String::from_str("http://").concat(h.as_str()).concat(":3000")
            }
        },
        None => String::from_str("http://localhost:3000"),
    }
}

/// Endpoint that merges the grocery list with the server's.
pub fn groceries_sync_url(base: &str) -> (r: String)
    ensures
        r@ == base@ + "/api/groceries/sync"@,
{
    String::from_str(base).concat("/api/groceries/sync")
}

/// Endpoint that extracts a recipe from a web page.
pub fn recipe_scrape_url(base: &str) -> (r: String)
    ensures
        r@ == base@ + "/api/recipes/scrape"@,
{
    String::from_str(base).concat("/api/recipes/scrape")
}

/// Endpoint that deletes the recipe `id`.
pub fn recipe_delete_url(base: &str, id: &str) -> (r: String)
    ensures
        r@ == base@ + "/api/recipes/"@ + id@,
{
    String::from_str(base).concat("/api/recipes/").concat(id)
}

/// Message when a request body could not be written.
pub fn payload_error(detail: &str) -> (r: String)
    ensures
        r@ == "Failed to serialize payload: "@ + detail@,
{
    String::from_str("Failed to serialize payload: ").concat(detail)
}

/// Message when the sync request did not reach the server.
pub fn network_error(detail: &str) -> (r: String)
    ensures
        r@ == "Network error: "@ + detail@,
{
    String::from_str("Network error: ").concat(detail)
}

/// Message when the import request did not reach the server.
pub fn backend_network_error(detail: &str) -> (r: String)
    ensures
        r@ == "Network error connecting to backend: "@ + detail@,
{
    String::from_str("Network error connecting to backend: ").concat(detail)
}

/// Message when the server answered the sync with a failure status.
pub fn sync_status_error(status: u16) -> (r: String)
    ensures
        r@ == "Server status error: "@ + decimal(status as nat),
{
    let n = decimal_text(status as u64);
    String::from_str("Server status error: ").concat(n.as_str())
}

/// Message when the server's merged grocery list could not be read.
pub fn sync_parse_error(detail: &str) -> (r: String)
    ensures
        r@ == "Failed to parse response JSON: "@ + detail@,
{
    String::from_str("Failed to parse response JSON: ").concat(detail)
}

/// Message when the server answered the import with a failure status, with
/// the body of its answer.
pub fn scrape_status_error(status: u16, body: &str) -> (r: String)
    ensures
        r@ == "Scraping failed ("@ + decimal(status as nat) + "): "@ + body@,
{
    let n = decimal_text(status as u64);
    String::from_str("Scraping failed (").concat(n.as_str()).concat("): ").concat(body)
}

/// Message when the imported recipe could not be read.
pub fn scrape_parse_error(detail: &str) -> (r: String)
    ensures
        r@ == "Failed to parse scraped recipe response: "@ + detail@,
{
    String::from_str("Failed to parse scraped recipe response: ").concat(detail)
}

/// Message when the server refused to delete a recipe.
pub fn delete_status_error(status: u16) -> (r: String)
    ensures
        r@ == "Failed to delete recipe from backend: "@ + decimal(status as nat),
{
    let n = decimal_text(status as u64);
    String::from_str("Failed to delete recipe from backend: ").concat(n.as_str())
}

} // verus!
