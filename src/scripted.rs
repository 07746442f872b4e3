//! A listing service that answers from a script: each call takes the next
//! prepared response and is recorded with the arguments it was given.
use vstd::prelude::*;
use crate::listing::{ListingError, Page};

verus! {

/// The arguments of one call made to a listing service.
#[derive(Debug)]
pub struct ListCall {
    pub container: String,
    pub prefix: String,
    pub continuation: Option<String>,
}

/// A listing service with pre-programmed responses, handed out in order, one per call.
#[derive(Debug)]
pub struct ScriptedListing {
    responses: Vec<Result<Page, ListingError>>,
    calls: Vec<ListCall>,
}

impl ScriptedListing {
    /// The responses not yet handed out, in the order they will be.
    pub closed spec fn pending(&self) -> Seq<Result<Page, ListingError>> {
        self.responses@
    }

    /// The calls made so far, oldest first.
    pub closed spec fn logged(&self) -> Seq<ListCall> {
        self.calls@
    }

    pub fn new(responses: Vec<Result<Page, ListingError>>) -> (r: ScriptedListing)
        ensures
            r.pending() == responses@,
            r.logged().len() == 0,
    {
        ScriptedListing { responses, calls: Vec::new() }
    }

    /// The calls made so far.
    pub fn calls(&self) -> (r: &Vec<ListCall>)
        ensures
            r@ == self.logged(),
    {
        &self.calls
    }

    /// How many responses are left.
    pub fn remaining(&self) -> (r: usize)
        ensures
            r == self.pending().len(),
    {
        self.responses.len()
    }

    /// Lists one page of `container` under `prefix`: records the call and
    /// hands out the next prepared response. Calling past the end of the
    /// script is a misuse of the double.
    pub fn list(&mut self, container: &str, prefix: &str, continuation: Option<String>) -> (r: Result<Page, ListingError>)
        requires
            old(self).pending().len() > 0,
        ensures
            r == old(self).pending()[0],
            final(self).pending() == old(self).pending().drop_first(),
            final(self).logged().len() == old(self).logged().len() + 1,
            final(self).logged().drop_last() == old(self).logged(),
            final(self).logged().last().container@ == container@,
            final(self).logged().last().prefix@ == prefix@,
            final(self).logged().last().continuation == continuation,
    {
        let call = ListCall { container: container.to_owned(), prefix: prefix.to_owned(), continuation };
        self.calls.push(call);
        proof {
            assert(self.calls@.drop_last() =~= old(self).calls@);
        }
        let r = self.responses.remove(0);
        proof {
            assert(self.responses@ =~= old(self).responses@.drop_first());
        }
        r
    }
}

} // verus!
