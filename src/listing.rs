//! Items, pages and listing failures, with their mathematical models.
use vstd::prelude::*;

verus! {

/// One listed object. Its size may be absent.
#[derive(Clone, Copy, Debug, PartialEq, Eq, Structural)]
pub struct Item {
    pub size: Option<u64>,
}

/// What an item adds to a total: its size, or zero where it has none.
pub open spec fn item_size(item: Item) -> nat {
    match item.size {
        Some(s) => s as nat,
        None => 0,
    }
}

/// The sum of the sizes of a sequence of items.
pub open spec fn items_total(items: Seq<Item>) -> nat
    decreases items.len(),
{
    if items.len() == 0 {
        0
    } else {
        items_total(items.drop_last()) + item_size(items.last())
    }
}

/// A prefix of a sequence of items never totals more than the whole.
pub proof fn lemma_items_total_prefix(items: Seq<Item>, k: int)
    requires
        0 <= k <= items.len(),
    ensures
        items_total(items.take(k)) <= items_total(items),
    decreases items.len(),
{
    if k < items.len() {
        assert(items.take(k) =~= items.drop_last().take(k));
        lemma_items_total_prefix(items.drop_last(), k);
    } else {
        assert(items.take(k) =~= items);
    }
}

impl Item {
    /// An item with the given size, or with none.
    pub fn new(size: Option<u64>) -> (r: Item)
        ensures
            r.size == size,
    {
        Item { size }
    }

    /// An item of a known size.
    pub fn sized(size: u64) -> (r: Item)
        ensures
            r.size == Some(size),
    {
        Item { size: Some(size) }
    }

    /// The size this item adds to a total: zero where the size is absent.
    pub fn contributed_size(&self) -> (r: u64)
        ensures
            r == item_size(*self),
    {
        match self.size {
            Some(s) => s,
            None => 0,
        }
    }
}

/// One page of a listing: its items in listing order, and the token that
/// fetches the next page, present exactly when more pages remain.
#[derive(Debug)]
pub struct Page {
    pub items: Vec<Item>,
    pub next_continuation_token: Option<String>,
}

impl Page {
    /// The sum of the sizes of this page's items.
    pub open spec fn total(&self) -> nat {
        items_total(self.items@)
    }

    pub fn new(items: Vec<Item>, next_continuation_token: Option<String>) -> (r: Page)
        ensures
            r.items@ == items@,
            r.next_continuation_token == next_continuation_token,
    {
        Page { items, next_continuation_token }
    }

    /// Whether this page is the last one of its listing.
    pub fn is_last(&self) -> (r: bool)
        ensures
            r == self.next_continuation_token.is_none(),
    {
        self.next_continuation_token.is_none()
    }
}

/// `total` plus the sizes of `items`, or `None` where that sum does not fit in a `u64`.
pub fn add_sizes(total: u64, items: &Vec<Item>) -> (r: Option<u64>)
    ensures
        total + items_total(items@) <= u64::MAX ==> r == Some((total + items_total(items@)) as u64),
        total + items_total(items@) > u64::MAX ==> r is None,
{
    let mut acc: u64 = total;
    let mut i: usize = 0;
    while i < items.len()
        invariant
            i <= items.len(),
            acc == total + items_total(items@.take(i as int)),
        decreases items.len() - i,
    {
        assert(items@.take(i + 1).drop_last() =~= items@.take(i as int));
        let size = items[i].contributed_size();
        match acc.checked_add(size) {
            Some(next) => {
                acc = next;
            },
            None => {
                proof {
                    lemma_items_total_prefix(items@, i + 1);
                }
                return None;
            },
        }
        i = i + 1;
    }
    assert(items@.take(i as int) =~= items@);
    Some(acc)
}

/// A failure reported by the listing service, handed on unchanged.
#[derive(Debug)]
pub struct ListingError {
    pub message: String,
}

impl ListingError {
    pub fn new(message: String) -> (r: ListingError)
        ensures
            r.message == message,
    {
        ListingError { message }
    }
}

} // verus!
