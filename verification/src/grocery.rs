//! The grocery checklist: adding items, ticking them off, sweeping the bought
//! ones away, hiding pantry staples, and the state of the sync with the server.

use vstd::prelude::*;
use crate::ids::{fresh_id, is_fresh_id_shape};
use crate::model::{GroceryItem, GroceryItemView};
use crate::text::{same_text, trim_text, trimmed};

verus! {

/// The item that the add form describes: trimmed name and unit, not bought,
/// not a pantry staple.
pub open spec fn new_grocery(id: Seq<char>, name: Seq<char>, quantity_bits: u64, unit: Seq<char>) -> GroceryItemView {
    GroceryItemView {
        id,
        name: trimmed(name),
        quantity_bits,
        unit: trimmed(unit),
        bought: false,
        is_pantry_staple: false,
    }
}

/// Adds the item of the add form, with id `id`, unless its trimmed name is
/// empty; says whether it added it.
pub fn add_grocery_with_id(
    items: &mut Vec<GroceryItem>,
    name: &str,
    quantity_bits: u64,
    unit: &str,
    id: String,
) -> (added: bool)
    ensures
        added == (trimmed(name@).len() > 0),
        added ==> final(items).deep_view() == old(items).deep_view().push(new_grocery(id@, name@, quantity_bits, unit@)),
        !added ==> final(items).deep_view() == old(items).deep_view(),
{
    let trimmed_name = trim_text(name);
    if trimmed_name.as_str().is_empty() {
        return false;
    }
    let item = GroceryItem {
        id,
        name: trimmed_name,
        quantity_bits,
        unit: trim_text(unit),
        bought: false,
        is_pantry_staple: false,
    };
    let ghost before = items.deep_view();
    items.push(item);
    assert(items.deep_view() =~= before.push(item@));
    true
}

/// Adds the item of the add form, with a fresh id, unless its trimmed name is
/// empty; says whether it added it.
pub fn add_grocery(items: &mut Vec<GroceryItem>, name: &str, quantity_bits: u64, unit: &str) -> (added: bool)
    ensures
        added == (trimmed(name@).len() > 0),
        added ==> exists|id: Seq<char>| is_fresh_id_shape(id)
            && final(items).deep_view() == old(items).deep_view().push(new_grocery(id, name@, quantity_bits, unit@)),
        !added ==> final(items).deep_view() == old(items).deep_view(),
{
    let trimmed_name = trim_text(name);
    if trimmed_name.as_str().is_empty() {
        return false;
    }
    let id = fresh_id();
    let ghost idv = id@;
    let added = add_grocery_with_id(items, name, quantity_bits, unit, id);
    assert(is_fresh_id_shape(idv));
    added
}

/// Position of the first item at or after `k` whose id is `id`, or the length
/// of `items` when there is none.
pub open spec fn item_index_from(items: Seq<GroceryItemView>, id: Seq<char>, k: int) -> int
    decreases items.len() - k,
{
    if k < 0 || k >= items.len() {
        items.len() as int
    } else if items[k].id == id {
        k
    } else {
        item_index_from(items, id, k + 1)
    }
}

/// Position of the first item whose id is `id`, or the length of `items`.
pub open spec fn item_index(items: Seq<GroceryItemView>, id: Seq<char>) -> int {
    item_index_from(items, id, 0)
}

/// The list with the "bought" mark of the first item with id `id` flipped.
pub open spec fn toggled(items: Seq<GroceryItemView>, id: Seq<char>) -> Seq<GroceryItemView> {
    let k = item_index(items, id);
    if k < items.len() {
        items.update(k, GroceryItemView { bought: !items[k].bought, ..items[k] })
    } else {
        items
    }
}

proof fn lemma_item_index_from(items: Seq<GroceryItemView>, id: Seq<char>, k: int)
    requires
        0 <= k <= items.len(),
    ensures
        k <= item_index_from(items, id, k) <= items.len(),
        item_index_from(items, id, k) < items.len() ==> items[item_index_from(items, id, k)].id == id,
        forall|j: int| k <= j < item_index_from(items, id, k) ==> items[j].id != id,
    decreases items.len() - k,
{
    if k < items.len() && items[k].id != id {
        lemma_item_index_from(items, id, k + 1);
    }
}

proof fn lemma_item_index_unique(items: Seq<GroceryItemView>, id: Seq<char>, k: int)
    requires
        0 <= k < items.len(),
        items[k].id == id,
        forall|j: int| 0 <= j < k ==> items[j].id != id,
    ensures
        item_index(items, id) == k,
{
    lemma_item_index_from(items, id, 0);
    let r = item_index(items, id);
    if r < k {
        assert(items[r].id == id);
    } else if r > k {
        assert(items[k].id != id);
    }
}

/// Flips the "bought" mark of the first item whose id is `id`; does nothing
/// when no item has that id.
pub fn toggle_bought(items: &mut Vec<GroceryItem>, id: &str)
    ensures
        final(items).deep_view() == toggled(old(items).deep_view(), id@),
{
    let ghost iv = items.deep_view();
    proof {
        lemma_item_index_from(iv, id@, 0);
    }
    let mut k: usize = 0;
    let mut hit = false;
    while k < items.len()
        invariant
            0 <= k <= items.len(),
            iv == items.deep_view(),
            forall|j: int| 0 <= j < k ==> iv[j].id != id@,
            hit ==> k < items.len() && iv[k as int].id == id@,
        ensures
            hit ==> k < items.len() && iv[k as int].id == id@,
            !hit ==> k == items.len(),
        decreases items.len() - k,
    {
        assert(iv[k as int] == items@[k as int]@);
        if same_text(items[k].id.as_str(), id) {
            hit = true;
            break;
        }
        k = k + 1;
    }
    if hit {
        proof {
            lemma_item_index_unique(iv, id@, k as int);
        }
        let flipped = GroceryItem {
            id: items[k].id.clone(),
            name: items[k].name.clone(),
            quantity_bits: items[k].quantity_bits,
            unit: items[k].unit.clone(),
            bought: !items[k].bought,
            is_pantry_staple: items[k].is_pantry_staple,
        };
        assert(flipped@ == (GroceryItemView { bought: !iv[k as int].bought, ..iv[k as int] }));
        items.set(k, flipped);
        assert(items.deep_view() =~= toggled(iv, id@));
    } else {
        proof {
            if item_index(iv, id@) < iv.len() {
                assert(iv[item_index(iv, id@)].id == id@);
            }
        }
    }
}

/// Flipping the same item twice leaves the list as it was.
pub proof fn lemma_toggle_twice(items: Seq<GroceryItemView>, id: Seq<char>)
    ensures
        toggled(toggled(items, id), id) == items,
{
    lemma_item_index_from(items, id, 0);
    let k = item_index(items, id);
    if k < items.len() {
        let once = toggled(items, id);
        assert forall|j: int| 0 <= j < k implies once[j].id != id by {
            assert(once[j] == items[j]);
        }
        lemma_item_index_unique(once, id, k);
        assert(toggled(once, id) =~= items);
    }
}

/// The items not yet bought, in order.
pub open spec fn unbought(items: Seq<GroceryItemView>) -> Seq<GroceryItemView>
    decreases items.len(),
{
    if items.len() == 0 {
        Seq::empty()
    } else if items.last().bought {
        unbought(items.drop_last())
    } else {
        unbought(items.drop_last()).push(items.last())
    }
}

/// Removes every bought item, keeping the order of the rest.
pub fn sweep_bought(items: &mut Vec<GroceryItem>)
    ensures
        final(items).deep_view() == unbought(old(items).deep_view()),
{
    let ghost iv = items.deep_view();
    let mut kept: Vec<GroceryItem> = Vec::new();
    for i in 0..items.len()
        invariant
            iv == items.deep_view(),
            kept.deep_view() == unbought(iv.take(i as int)),
    {
        assert(iv.take(i + 1).drop_last() =~= iv.take(i as int));
        assert(iv.take(i + 1).last() == items@[i as int]@);
        if !items[i].bought {
            let ghost before = kept.deep_view();
            kept.push(items[i].clone());
            assert(kept.deep_view() =~= before.push(items@[i as int]@));
        }
    }
    assert(iv.take(items.len() as int) =~= iv);
    *items = kept;
}

/// The sweep leaves no bought item behind, and keeps only items of the list.
pub proof fn lemma_sweep_leaves_nothing_bought(items: Seq<GroceryItemView>)
    ensures
        forall|k: int| 0 <= k < unbought(items).len()
            ==> !(#[trigger] unbought(items)[k]).bought && items.contains(unbought(items)[k]),
    decreases items.len(),
{
    if items.len() > 0 {
        let rest = items.drop_last();
        lemma_sweep_leaves_nothing_bought(rest);
        let u = unbought(items);
        let ur = unbought(rest);
        assert forall|k: int| 0 <= k < u.len() implies !(#[trigger] u[k]).bought && items.contains(u[k]) by {
            if k < ur.len() {
                assert(u[k] == ur[k]);
                assert(!ur[k].bought && rest.contains(ur[k]));
                let j = choose|j: int| 0 <= j < rest.len() && rest[j] == ur[k];
                assert(items[j] == rest[j]);
            } else {
                assert(items[items.len() - 1] == u[k]);
            }
        }
    }
}

/// Sweeping twice is the same as sweeping once.
pub proof fn lemma_sweep_idempotent(items: Seq<GroceryItemView>)
    ensures
        unbought(unbought(items)) == unbought(items),
{
    lemma_sweep_leaves_nothing_bought(items);
    lemma_unbought_of_unbought_free(unbought(items));
}

proof fn lemma_unbought_of_unbought_free(items: Seq<GroceryItemView>)
    requires
        forall|k: int| 0 <= k < items.len() ==> !(#[trigger] items[k]).bought,
    ensures
        unbought(items) == items,
    decreases items.len(),
{
    if items.len() > 0 {
        let rest = items.drop_last();
        assert forall|k: int| 0 <= k < rest.len() implies !(#[trigger] rest[k]).bought by {
            assert(rest[k] == items[k]);
        }
        lemma_unbought_of_unbought_free(rest);
        assert(!items[items.len() - 1].bought);
        assert(rest.push(items.last()) =~= items);
    }
}

/// The items shown: all of them, or, when staples are hidden, those that are
/// not pantry staples; in order.
pub open spec fn shown(items: Seq<GroceryItemView>, hide_staples: bool) -> Seq<GroceryItemView>
    decreases items.len(),
{
    if items.len() == 0 {
        Seq::empty()
    } else if hide_staples && items.last().is_pantry_staple {
        shown(items.drop_last(), hide_staples)
    } else {
        shown(items.drop_last(), hide_staples).push(items.last())
    }
}

/// The items to show, hiding pantry staples when asked.
pub fn visible_groceries(items: &Vec<GroceryItem>, hide_staples: bool) -> (r: Vec<GroceryItem>)
    ensures
        r.deep_view() == shown(items.deep_view(), hide_staples),
{
    let ghost iv = items.deep_view();
    let mut r: Vec<GroceryItem> = Vec::new();
    for i in 0..items.len()
        invariant
            iv == items.deep_view(),
            r.deep_view() == shown(iv.take(i as int), hide_staples),
    {
        assert(iv.take(i + 1).drop_last() =~= iv.take(i as int));
        assert(iv.take(i + 1).last() == items@[i as int]@);
        if !(hide_staples && items[i].is_pantry_staple) {
            let ghost before = r.deep_view();
            r.push(items[i].clone());
            assert(r.deep_view() =~= before.push(items@[i as int]@));
        }
    }
    assert(iv.take(items.len() as int) =~= iv);
    r
}

/// With staples shown, every item is shown.
pub proof fn lemma_show_all(items: Seq<GroceryItemView>)
    ensures
        shown(items, false) == items,
    decreases items.len(),
{
    if items.len() > 0 {
        lemma_show_all(items.drop_last());
        assert(items.drop_last().push(items.last()) =~= items);
    }
}

/// The state of the sync with the server.
#[derive(Clone, Debug)]
pub enum SyncStatus {
    Idle,
    Syncing,
    Success,
    Error(String),
}

pub enum SyncStatusView {
    Idle,
    Syncing,
    Success,
    Error(Seq<char>),
}

impl View for SyncStatus {
    type V = SyncStatusView;

    open spec fn view(&self) -> SyncStatusView {
        match self {
            SyncStatus::Idle => SyncStatusView::Idle,
            SyncStatus::Syncing => SyncStatusView::Syncing,
            SyncStatus::Success => SyncStatusView::Success,
            SyncStatus::Error(m) => SyncStatusView::Error(m@),
        }
    }
}

impl PartialEq for SyncStatus {
    fn eq(&self, other: &Self) -> (r: bool) {
        match (self, other) {
            (SyncStatus::Idle, SyncStatus::Idle) => true,
            (SyncStatus::Syncing, SyncStatus::Syncing) => true,
            (SyncStatus::Success, SyncStatus::Success) => true,
            (SyncStatus::Error(a), SyncStatus::Error(b)) => *a == *b,
            _ => false,
        }
    }
}

impl vstd::std_specs::cmp::PartialEqSpecImpl for SyncStatus {
    open spec fn obeys_eq_spec() -> bool {
        true
    }

    open spec fn eq_spec(&self, other: &Self) -> bool {
        match (self, other) {
            (SyncStatus::Idle, SyncStatus::Idle) => true,
            (SyncStatus::Syncing, SyncStatus::Syncing) => true,
            (SyncStatus::Success, SyncStatus::Success) => true,
            (SyncStatus::Error(a), SyncStatus::Error(b)) => a@ == b@,
            _ => false,
        }
    }
}

/// The state once a sync has started.
pub fn begin_sync() -> (s: SyncStatus)
    ensures
        s@ == SyncStatusView::Syncing,
{
    SyncStatus::Syncing
}

/// The state once the server has answered, and the list to keep and store:
/// the server's merged list on success, nothing on failure.
pub fn finish_sync(outcome: Result<Vec<GroceryItem>, String>) -> (r: (SyncStatus, Option<Vec<GroceryItem>>))
    ensures
        match outcome {
            Ok(items) => r.0@ == SyncStatusView::Success && r.1 == Some(items),
            Err(message) => r.0@ == SyncStatusView::Error(message@) && r.1 is None,
        },
{
    match outcome {
        Ok(items) => (SyncStatus::Success, Some(items)),
        Err(message) => (SyncStatus::Error(message), None),
    }
}

/// The sync button is disabled while a sync is running.
pub fn sync_button_disabled(status: &SyncStatus) -> (r: bool)
    ensures
        r == (status@ == SyncStatusView::Syncing),
{
    match status {
        SyncStatus::Syncing => true,
        _ => false,
    }
}

/// CSS class of the sync badge.
pub fn sync_badge_class(status: &SyncStatus) -> (r: &'static str)
    ensures
        r@ == match status@ {
            SyncStatusView::Idle => "sync-status idle"@,
            SyncStatusView::Syncing => "sync-status syncing"@,
            SyncStatusView::Success => "sync-status success"@,
            SyncStatusView::Error(_) => "sync-status error"@,
        },
{
    match status {
        SyncStatus::Idle => "sync-status idle",
        SyncStatus::Syncing => "sync-status syncing",
        SyncStatus::Success => "sync-status success",
        SyncStatus::Error(_) => "sync-status error",
    }
}

/// Text of the sync badge.
pub fn sync_badge_label(status: &SyncStatus) -> (r: &'static str)
    ensures
        r@ == match status@ {
            SyncStatusView::Idle => "Offline Mode"@,
            SyncStatusView::Syncing => "Syncing..."@,
            SyncStatusView::Success => "Synced with Server"@,
            SyncStatusView::Error(_) => "Offline (Sync Error)"@,
        },
{
    match status {
        SyncStatus::Idle => "Offline Mode",
        SyncStatus::Syncing => "Syncing...",
        SyncStatus::Success => "Synced with Server",
        SyncStatus::Error(_) => "Offline (Sync Error)",
    }
}

/// Label of the button that hides or shows pantry staples.
pub fn staples_toggle_label(hide_staples: bool) -> (r: &'static str)
    ensures
        r@ == (if hide_staples { "Show Pantry Staples"@ } else { "Hide Pantry Staples"@ }),
{
    if hide_staples { "Show Pantry Staples" } else { "Hide Pantry Staples" }
}

/// CSS class of a checklist line.
pub fn item_class(bought: bool) -> (r: &'static str)
    ensures
        r@ == (if bought { "grocery-item bought"@ } else { "grocery-item"@ }),
{
    if bought { "grocery-item bought" } else { "grocery-item" }
}

/// Check box drawn for a checklist line.
pub fn check_mark(bought: bool) -> (r: &'static str)
    ensures
        r@ == (if bought { "[x]"@ } else { "[ ]"@ }),
{
    if bought { "[x]" } else { "[ ]" }
}


/// `item_index` is the position of the first item with the id, or the length
/// of the list when no item has it.
pub proof fn lemma_item_index(items: Seq<GroceryItemView>, id: Seq<char>)
    ensures
        0 <= item_index(items, id) <= items.len(),
        item_index(items, id) < items.len() ==> items[item_index(items, id)].id == id,
        forall|j: int| 0 <= j < item_index(items, id) ==> items[j].id != id,
{
    lemma_item_index_from(items, id, 0);
}

/// Adding from the form appends exactly one item, not bought and not a
/// staple, named by the trimmed name and unit and carrying the given amount
/// and id; the items before it are the old list.
pub proof fn lemma_added_item(items: Seq<GroceryItemView>, id: Seq<char>, name: Seq<char>, quantity_bits: u64, unit: Seq<char>)
    ensures
        ({
            let r = items.push(new_grocery(id, name, quantity_bits, unit));
            &&& r.len() == items.len() + 1
            &&& r.drop_last() == items
            &&& r.last().id == id
            &&& r.last().name == trimmed(name)
            &&& r.last().unit == trimmed(unit)
            &&& r.last().quantity_bits == quantity_bits
            &&& !r.last().bought
            &&& !r.last().is_pantry_staple
        }),
{
    let r = items.push(new_grocery(id, name, quantity_bits, unit));
    assert(r.drop_last() =~= items);
}

/// Toggling flips the bought mark of the first item with the id, keeps its
/// other fields, and leaves every other item and the length unchanged; with no
/// such item nothing changes.
pub proof fn lemma_toggle_changes_one(items: Seq<GroceryItemView>, id: Seq<char>)
    ensures
        toggled(items, id).len() == items.len(),
        forall|j: int| 0 <= j < items.len() && j != item_index(items, id)
            ==> #[trigger] toggled(items, id)[j] == items[j],
        item_index(items, id) < items.len() ==> ({
            let k = item_index(items, id);
            let t = toggled(items, id)[k];
            &&& t.bought == !items[k].bought
            &&& t.id == items[k].id && t.id == id
            &&& t.name == items[k].name
            &&& t.unit == items[k].unit
            &&& t.quantity_bits == items[k].quantity_bits
            &&& t.is_pantry_staple == items[k].is_pantry_staple
        }),
        item_index(items, id) == items.len() ==> toggled(items, id) == items,
{
    lemma_item_index_from(items, id, 0);
}

/// The sweep keeps exactly the items not bought, in order.
pub proof fn lemma_unbought_keeps_unbought(items: Seq<GroceryItemView>)
    ensures
        unbought(items) == items.filter(|x: GroceryItemView| !x.bought),
    decreases items.len(),
{
    reveal(Seq::filter);
    if items.len() == 0 {
        assert(items.filter(|x: GroceryItemView| !x.bought) =~= Seq::<GroceryItemView>::empty());
    } else {
        lemma_unbought_keeps_unbought(items.drop_last());
    }
}

/// With staples hidden, exactly the items that are not pantry staples are
/// shown, in order, whether bought or not; with staples shown, all are.
pub proof fn lemma_shown_hides_staples(items: Seq<GroceryItemView>)
    ensures
        shown(items, true) == items.filter(|x: GroceryItemView| !x.is_pantry_staple),
        shown(items, false) == items,
        forall|k: int| 0 <= k < shown(items, true).len() ==> !(#[trigger] shown(items, true)[k]).is_pantry_staple,
    decreases items.len(),
{
    reveal(Seq::filter);
    lemma_show_all(items);
    if items.len() == 0 {
        assert(items.filter(|x: GroceryItemView| !x.is_pantry_staple) =~= Seq::<GroceryItemView>::empty());
    } else {
        lemma_shown_hides_staples(items.drop_last());
    }
    let f = items.filter(|x: GroceryItemView| !x.is_pantry_staple);
    assert forall|k: int| 0 <= k < f.len() implies !(#[trigger] f[k]).is_pantry_staple by {
        items.lemma_filter_pred(|x: GroceryItemView| !x.is_pantry_staple, k);
    }
}

} // verus!
