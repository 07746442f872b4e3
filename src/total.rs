//! One aggregation run against a listing service: pages are fetched in turn,
//! each with the token that the previous page returned, until a page comes
//! without a token or a fetch fails.
use vstd::prelude::*;
use crate::aggregate::{Aggregator, Step};
use crate::listing::{ListingError, Page, items_total};
use crate::scripted::{ListCall, ScriptedListing};

verus! {

/// Whether a response ends a run: a failure, or a page without a continuation token.
pub open spec fn ends_run(r: Result<Page, ListingError>) -> bool {
    match r {
        Ok(p) => p.next_continuation_token is None,
        Err(_) => true,
    }
}

/// Whether some response among `rs` ends a run.
pub open spec fn has_end(rs: Seq<Result<Page, ListingError>>) -> bool {
    exists|i: int| 0 <= i < rs.len() && #[trigger] ends_run(rs[i])
}

/// How many of the responses `rs` one run takes: up to and including the
/// first that ends it.
pub open spec fn run_length(rs: Seq<Result<Page, ListingError>>) -> nat
    decreases rs.len(),
{
    if rs.len() == 0 {
        0
    } else if ends_run(rs[0]) {
        1
    } else {
        1 + run_length(rs.drop_first())
    }
}

/// The sum of the sizes of the items of the pages among `rs`.
pub open spec fn responses_total(rs: Seq<Result<Page, ListingError>>) -> nat
    decreases rs.len(),
{
    if rs.len() == 0 {
        0
    } else {
        responses_total(rs.drop_last()) + match rs.last() {
            Ok(p) => items_total(p.items@),
            Err(_) => 0,
        }
    }
}

/// The continuation token that the call following the first `k` responses carries.
pub open spec fn token_for_call(rs: Seq<Result<Page, ListingError>>, k: int) -> Option<String> {
    if k == 0 {
        None
    } else {
        match rs[k - 1] {
            Ok(p) => p.next_continuation_token,
            Err(_) => None,
        }
    }
}

/// What one run over the responses `rs` returns: the failure that ended it,
/// or the total of all the pages it fetched.
pub open spec fn run_result(rs: Seq<Result<Page, ListingError>>) -> Result<u64, ListingError> {
    match rs[run_length(rs) - 1] {
        Ok(_) => Ok(responses_total(rs.take(run_length(rs) as int)) as u64),
        Err(e) => Err(e),
    }
}

/// Whether `call` is the call numbered `k` of a run over `rs` under `container` and `prefix`.
pub open spec fn is_run_call(
    call: ListCall,
    container: Seq<char>,
    prefix: Seq<char>,
    rs: Seq<Result<Page, ListingError>>,
    k: int,
) -> bool {
    &&& call.container@ == container
    &&& call.prefix@ == prefix
    &&& call.continuation == token_for_call(rs, k)
}

/// Where no response among the first `k` ends a run but a later one does,
/// the run takes response `k` too, and stops there if that one ends it.
pub proof fn lemma_run_length(rs: Seq<Result<Page, ListingError>>, k: int)
    requires
        has_end(rs),
        0 <= k,
        forall|j: int| 0 <= j < k ==> !ends_run(#[trigger] rs[j]),
    ensures
        k < rs.len(),
        k + 1 <= run_length(rs),
        ends_run(rs[k]) ==> run_length(rs) == k + 1,
    decreases k,
{
    let i = choose|i: int| 0 <= i < rs.len() && #[trigger] ends_run(rs[i]);
    if i < k {
        assert(!ends_run(rs[i]));
    }
    if k > 0 {
        let rest = rs.drop_first();
        assert(!ends_run(rs[0]));
        assert(ends_run(rest[i - 1]));
        assert forall|j: int| 0 <= j < k - 1 implies !ends_run(#[trigger] rest[j]) by {
            assert(rest[j] == rs[j + 1]);
        }
        lemma_run_length(rest, k - 1);
        assert(rest[k - 1] == rs[k]);
    }
}

/// A run takes no more responses than there are.
pub proof fn lemma_run_length_bound(rs: Seq<Result<Page, ListingError>>)
    ensures
        run_length(rs) <= rs.len(),
    decreases rs.len(),
{
    if rs.len() > 0 {
        lemma_run_length_bound(rs.drop_first());
    }
}

/// The pages of a prefix of the responses never total more than those of a longer prefix.
pub proof fn lemma_responses_total_prefix(rs: Seq<Result<Page, ListingError>>, a: int, b: int)
    requires
        0 <= a <= b <= rs.len(),
    ensures
        responses_total(rs.take(a)) <= responses_total(rs.take(b)),
    decreases b - a,
{
    if a < b {
        assert(rs.take(b).drop_last() =~= rs.take(b - 1));
        lemma_responses_total_prefix(rs, a, b - 1);
    }
}

/// The sum of the sizes of all the items of a sequence of pages.
pub open spec fn pages_total(pages: Seq<Page>) -> nat
    decreases pages.len(),
{
    if pages.len() == 0 {
        0
    } else {
        pages_total(pages.drop_last()) + items_total(pages.last().items@)
    }
}

/// The responses of a service that answers each call with the next of `pages`.
pub open spec fn as_responses(pages: Seq<Page>) -> Seq<Result<Page, ListingError>> {
    pages.map_values(|p: Page| Ok::<Page, ListingError>(p))
}

/// Over pages that each carry a continuation token but the last, which carries
/// none, a run fetches every page, and returns the sum of the sizes of all the
/// items across all of them.
pub proof fn lemma_run_over_pages(pages: Seq<Page>)
    requires
        pages.len() > 0,
        forall|j: int| 0 <= j < pages.len() - 1 ==> (#[trigger] pages[j]).next_continuation_token is Some,
        pages.last().next_continuation_token is None,
        pages_total(pages) <= u64::MAX,
    ensures
        run_length(as_responses(pages)) == pages.len(),
        run_result(as_responses(pages)) == Ok::<u64, ListingError>(pages_total(pages) as u64),
{
    let rs = as_responses(pages);
    let last = pages.len() - 1;
    assert(ends_run(rs[last]));
    assert forall|j: int| 0 <= j < last implies !ends_run(#[trigger] rs[j]) by {
        assert(rs[j] == Ok::<Page, ListingError>(pages[j]));
        assert(pages[j].next_continuation_token is Some);
    }
    lemma_run_length(rs, last);
    lemma_responses_total_of_pages(pages);
    assert(rs.take(pages.len() as int) =~= rs);
}

/// The pages among the responses of `as_responses(pages)` total `pages_total(pages)`.
pub proof fn lemma_responses_total_of_pages(pages: Seq<Page>)
    ensures
        responses_total(as_responses(pages)) == pages_total(pages),
    decreases pages.len(),
{
    if pages.len() > 0 {
        assert(as_responses(pages).drop_last() =~= as_responses(pages.drop_last()));
        lemma_responses_total_of_pages(pages.drop_last());
    }
}

/// Where the fetch numbered `f` fails and every earlier one returned a page
/// with a continuation token, a run makes exactly `f + 1` fetches and returns
/// that failure.
pub proof fn lemma_failure_ends_run(rs: Seq<Result<Page, ListingError>>, f: int)
    requires
        0 <= f < rs.len(),
        rs[f] is Err,
        forall|j: int| 0 <= j < f ==> match #[trigger] rs[j] {
            Ok(p) => p.next_continuation_token is Some,
            Err(_) => false,
        },
    ensures
        run_length(rs) == f + 1,
        run_result(rs) == Err::<u64, ListingError>(rs[f]->Err_0),
{
    assert(ends_run(rs[f]));
    assert forall|j: int| 0 <= j < f implies !ends_run(#[trigger] rs[j]) by {
        assert(rs[j] is Ok);
    }
    lemma_run_length(rs, f);
}

/// Sums the sizes of all items under `prefix` in `container`, fetching pages
/// from `listing` one at a time. The first fetch carries no token; each later
/// one carries exactly the token that the page before returned. The run ends
/// at the first page without a token, or at the first failure, which is
/// returned unchanged with no fetch after it.
///
/// The script must hold a response that ends the run, and the total of the
/// pages fetched must fit in a `u64`.
pub fn total_size(listing: &mut ScriptedListing, container: &str, prefix: &str) -> (r: Result<u64, ListingError>)
    requires
        has_end(old(listing).pending()),
        responses_total(old(listing).pending().take(run_length(old(listing).pending()) as int)) <= u64::MAX,
    ensures
        r == run_result(old(listing).pending()),
        final(listing).pending() == old(listing).pending().skip(run_length(old(listing).pending()) as int),
        final(listing).logged().len() == old(listing).logged().len() + run_length(old(listing).pending()),
        final(listing).logged().take(old(listing).logged().len() as int) == old(listing).logged(),
        forall|k: int|
            0 <= k < run_length(old(listing).pending()) ==> is_run_call(
                #[trigger] final(listing).logged()[old(listing).logged().len() + k],
                container@,
                prefix@,
                old(listing).pending(),
                k,
            ),
{
    let ghost rs = listing.pending();
    let ghost calls0 = listing.logged();
    let ghost n = run_length(rs) as int;
    let mut agg = Aggregator::new();
    let mut token: Option<String> = None;
    let ghost mut k: int = 0;
    proof {
        assert(rs.skip(0) =~= rs);
        assert(listing.logged().take(calls0.len() as int) =~= calls0);
        assert(rs.take(0) =~= Seq::<Result<Page, ListingError>>::empty());
    }
    loop
        invariant
            rs == old(listing).pending(),
            calls0 == old(listing).logged(),
            0 <= k,
            has_end(rs),
            responses_total(rs.take(n)) <= u64::MAX,
            n == run_length(rs),
            forall|j: int| 0 <= j < k ==> !ends_run(#[trigger] rs[j]),
            listing.pending() == rs.skip(k),
            listing.logged().len() == calls0.len() + k,
            listing.logged().take(calls0.len() as int) == calls0,
            forall|j: int|
                0 <= j < k ==> is_run_call(
                    #[trigger] listing.logged()[calls0.len() + j],
                    container@,
                    prefix@,
                    rs,
                    j,
                ),
            agg.spec_total() == responses_total(rs.take(k)),
            !agg.spec_finished(),
            token == token_for_call(rs, k),
        decreases rs.len() - k,
    {
        proof {
            lemma_run_length(rs, k);
            lemma_run_length_bound(rs);
        }
        let ghost before = listing.logged();
        let response = listing.list(container, prefix, token);
        proof {
            let after = listing.logged();
            assert(after.take(calls0.len() as int) =~= calls0) by {
                assert(after.drop_last() == before);
                assert forall|j: int| 0 <= j < calls0.len() implies after[j] == calls0[j] by {
                    assert(after[j] == after.drop_last()[j]);
                    assert(before[j] == before.take(calls0.len() as int)[j]);
                }
            }
            assert forall|j: int| 0 <= j <= k implies is_run_call(
                #[trigger] after[calls0.len() + j],
                container@,
                prefix@,
                rs,
                j,
            ) by {
                if j < k {
                    assert(after[calls0.len() + j] == after.drop_last()[calls0.len() + j]);
                }
            }
            assert(rs.skip(k).drop_first() =~= rs.skip(k + 1));
            assert(response == rs[k]);
        }
        match response {
            Err(e) => {
                proof {
                    assert(ends_run(rs[k]));
                    assert(n == k + 1);
                    assert(run_result(rs) == Err::<u64, ListingError>(e));
                }
                return Err(e);
            },
            Ok(page) => {
                proof {
                    assert(rs.take(k + 1).drop_last() =~= rs.take(k));
                    assert(rs.take(k + 1).last() == rs[k]);
                    assert(responses_total(rs.take(k + 1)) == agg.spec_total() + items_total(page.items@));
                    lemma_responses_total_prefix(rs, k + 1, n);
                }
                let ghost next_token = page.next_continuation_token;
                match agg.on_page(page) {
                    Step::Fetch(t) => {
                        token = Some(t);
                        proof {
                            k = k + 1;
                        }
                    },
                    Step::Done(total) => {
                        return Ok(total);
                    },
                }
            },
        }
    }
}

} // verus!
