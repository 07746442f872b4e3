//! The decisions of one aggregation run, as a state machine: each fetched
//! page is folded into the running total, and the page's continuation token
//! decides whether another page is fetched.
use vstd::prelude::*;
use crate::listing::{Page, add_sizes, items_total};

verus! {

/// What to do after a page has been folded in.
#[derive(Debug)]
pub enum Step {
    /// Fetch the next page with this continuation token.
    Fetch(String),
    /// The listing is complete; this is the total.
    Done(u64),
}

/// The state of one aggregation run: the total of the pages seen so far, and
/// whether the last page has been seen.
#[derive(Debug)]
pub struct Aggregator {
    total: u64,
    finished: bool,
}

impl Aggregator {
    /// The sum of the sizes of the pages folded in so far.
    pub closed spec fn spec_total(&self) -> nat {
        self.total as nat
    }

    /// Whether a page without a continuation token has been folded in.
    pub closed spec fn spec_finished(&self) -> bool {
        self.finished
    }

    /// A run that has seen no page.
    pub fn new() -> (r: Aggregator)
        ensures
            r.spec_total() == 0,
            !r.spec_finished(),
    {
        Aggregator { total: 0, finished: false }
    }

    /// The total so far.
    pub fn total(&self) -> (r: u64)
        ensures
            r == self.spec_total(),
    {
        self.total
    }

    pub fn is_finished(&self) -> (r: bool)
        ensures
            r == self.spec_finished(),
    {
        self.finished
    }

    /// Whether the total with `page` folded in still fits in a `u64`.
    pub fn can_absorb(&self, page: &Page) -> (r: bool)
        ensures
            r == (self.spec_total() + items_total(page.items@) <= u64::MAX),
    {
        add_sizes(self.total, &page.items).is_some()
    }

    /// Folds a fetched page in. The page's token, where it has one, is the
    /// token of the next fetch; where it has none, the run is complete.
    pub fn on_page(&mut self, page: Page) -> (s: Step)
        requires
            !old(self).spec_finished(),
            old(self).spec_total() + items_total(page.items@) <= u64::MAX,
        ensures
            final(self).spec_total() == old(self).spec_total() + items_total(page.items@),
            final(self).spec_finished() == page.next_continuation_token.is_none(),
            s == (match page.next_continuation_token {
                Some(t) => Step::Fetch(t),
                None => Step::Done(final(self).spec_total() as u64),
            }),
    {
        let total = add_sizes(self.total, &page.items).unwrap();
        self.total = total;
        match page.next_continuation_token {
            Some(t) => Step::Fetch(t),
            None => {
                self.finished = true;
                Step::Done(total)
            },
        }
    }
}

} // verus!
