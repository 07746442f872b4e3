//! Field accessors on the output of an instance listing, as a paginator reads it.
use vstd::prelude::*;

verus! {

/// A group of instances launched together.
#[derive(Debug)]
pub struct Reservation {
    pub reservation_id: Option<String>,
    pub owner_id: Option<String>,
}

/// One page of an instance listing.
#[derive(Debug)]
pub struct DescribeInstancesOutput {
    pub reservations: Option<Vec<Reservation>>,
    pub next_token: Option<String>,
}

/// The token of the next page, borrowed from the output, where there is one.
pub fn reflens_describe_instances_output_output_next_token(input: &DescribeInstancesOutput) -> (r: Option<&String>)
    ensures
        match r {
            Some(t) => input.next_token == Some(*t),
            None => input.next_token is None,
        },
{
    let input = match &input.next_token {
        None => return None,
        Some(t) => t,
    };
    Some(input)
}

/// The reservations of the output, taking the output apart, where it has them.
pub fn lens_describe_instances_output_output_reservations(input: DescribeInstancesOutput) -> (r: Option<Vec<Reservation>>)
    ensures
        r == input.reservations,
{
    let input = match input.reservations {
        None => return None,
        Some(t) => t,
    };
    Some(input)
}

} // verus!
