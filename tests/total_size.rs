use listing_total::aggregate::{Aggregator, Step};
use listing_total::lens::{
    lens_describe_instances_output_output_reservations,
    reflens_describe_instances_output_output_next_token, DescribeInstancesOutput, Reservation,
};
use listing_total::listing::{add_sizes, Item, ListingError, Page};
use listing_total::scripted::ScriptedListing;
use listing_total::total::total_size;

fn page(sizes: &[u64], token: Option<&str>) -> Page {
    Page::new(
        sizes.iter().map(|s| Item::sized(*s)).collect(),
        token.map(|t| t.to_string()),
    )
}

fn failure(message: &str) -> ListingError {
    ListingError::new(message.to_string())
}

#[test]
fn test_single_page() {
    let mut listing = ScriptedListing::new(vec![Ok(page(&[5, 2], None))]);
    let size = total_size(&mut listing, "test-bucket", "test-prefix").unwrap();
    assert_eq!(7, size);
    let calls = listing.calls();
    assert_eq!(calls.len(), 1);
    assert_eq!(calls[0].container, "test-bucket");
    assert_eq!(calls[0].prefix, "test-prefix");
    assert_eq!(calls[0].continuation, None);
}

#[test]
fn test_multiple_pages() {
    let mut listing = ScriptedListing::new(vec![
        Ok(page(&[5, 2], Some("next"))),
        Ok(page(&[3, 9], None)),
    ]);
    let size = total_size(&mut listing, "test-bucket", "test-prefix").unwrap();
    assert_eq!(19, size);
    let calls = listing.calls();
    assert_eq!(calls.len(), 2);
    assert_eq!(calls[0].continuation, None);
    assert_eq!(calls[1].container, "test-bucket");
    assert_eq!(calls[1].prefix, "test-prefix");
    assert_eq!(calls[1].continuation, Some("next".to_string()));
    assert_eq!(listing.remaining(), 0);
}

#[test]
fn absent_size_adds_nothing() {
    assert_eq!(Item::new(None).contributed_size(), 0);
    assert_eq!(Item::new(Some(6)).contributed_size(), 6);
    let items = vec![Item::sized(4), Item::new(None), Item::sized(6)];
    let mut listing = ScriptedListing::new(vec![Ok(Page::new(items, None))]);
    assert_eq!(total_size(&mut listing, "b", "p").unwrap(), 10);
}

#[test]
fn empty_first_page_totals_zero() {
    let mut listing = ScriptedListing::new(vec![Ok(page(&[], None))]);
    assert_eq!(total_size(&mut listing, "b", "p").unwrap(), 0);
    assert_eq!(listing.calls().len(), 1);
}

#[test]
fn empty_pages_between_full_ones() {
    let mut listing = ScriptedListing::new(vec![
        Ok(page(&[1], Some("a"))),
        Ok(page(&[], Some("b"))),
        Ok(page(&[10], None)),
    ]);
    assert_eq!(total_size(&mut listing, "b", "p").unwrap(), 11);
}

#[test]
fn failure_stops_further_fetches() {
    let mut listing = ScriptedListing::new(vec![
        Ok(page(&[1, 2], Some("t1"))),
        Err(failure("access denied")),
        Ok(page(&[100], None)),
    ]);
    let err = total_size(&mut listing, "b", "p").unwrap_err();
    assert_eq!(err.message, "access denied");
    assert_eq!(listing.calls().len(), 2);
    assert_eq!(listing.calls()[1].continuation, Some("t1".to_string()));
    assert_eq!(listing.remaining(), 1);
}

#[test]
fn failure_on_first_fetch() {
    let mut listing = ScriptedListing::new(vec![Err(failure("timeout")), Ok(page(&[3], None))]);
    let err = total_size(&mut listing, "b", "p").unwrap_err();
    assert_eq!(err.message, "timeout");
    assert_eq!(listing.calls().len(), 1);
    assert_eq!(listing.remaining(), 1);
}

#[test]
fn each_call_carries_previous_token() {
    let mut listing = ScriptedListing::new(vec![
        Ok(page(&[1], Some("t1"))),
        Ok(page(&[2], Some("t2"))),
        Ok(page(&[4], None)),
        Ok(page(&[8], None)),
    ]);
    assert_eq!(total_size(&mut listing, "bucket", "photos/").unwrap(), 7);
    let tokens: Vec<Option<String>> =
        listing.calls().iter().map(|c| c.continuation.clone()).collect();
    assert_eq!(
        tokens,
        vec![None, Some("t1".to_string()), Some("t2".to_string())]
    );
    assert!(listing.calls().iter().all(|c| c.container == "bucket" && c.prefix == "photos/"));
    assert_eq!(listing.remaining(), 1);
}

#[test]
fn scripted_listing_hands_out_in_order() {
    let mut listing = ScriptedListing::new(vec![Ok(page(&[1], Some("x"))), Err(failure("e"))]);
    let first = listing.list("c", "p", None).unwrap();
    assert_eq!(first.next_continuation_token, Some("x".to_string()));
    assert!(!first.is_last());
    assert!(listing.list("c", "p", Some("x".to_string())).is_err());
    assert_eq!(listing.remaining(), 0);
    assert_eq!(listing.calls()[1].continuation, Some("x".to_string()));
}

#[test]
fn aggregator_steps() {
    let mut agg = Aggregator::new();
    assert_eq!(agg.total(), 0);
    assert!(!agg.is_finished());
    match agg.on_page(page(&[5, 2], Some("next"))) {
        Step::Fetch(t) => assert_eq!(t, "next"),
        Step::Done(_) => panic!("expected another fetch"),
    }
    assert_eq!(agg.total(), 7);
    match agg.on_page(page(&[3, 9], None)) {
        Step::Done(total) => assert_eq!(total, 19),
        Step::Fetch(_) => panic!("expected the end"),
    }
    assert!(agg.is_finished());
}

#[test]
fn aggregator_detects_overflow() {
    let mut agg = Aggregator::new();
    let big = page(&[u64::MAX], Some("t"));
    assert!(agg.can_absorb(&big));
    agg.on_page(big);
    assert!(!agg.can_absorb(&page(&[1], None)));
    assert!(agg.can_absorb(&page(&[0], None)));
}

#[test]
fn add_sizes_checks_overflow() {
    let items = vec![Item::sized(3), Item::new(None), Item::sized(4)];
    assert_eq!(add_sizes(10, &items), Some(17));
    assert_eq!(add_sizes(u64::MAX - 6, &items), None);
    assert_eq!(add_sizes(u64::MAX - 7, &items), Some(u64::MAX));
    assert_eq!(add_sizes(5, &Vec::new()), Some(5));
}

#[test]
fn largest_total_fits() {
    let mut listing = ScriptedListing::new(vec![
        Ok(page(&[u64::MAX - 1], Some("t"))),
        Ok(page(&[1], None)),
    ]);
    assert_eq!(total_size(&mut listing, "b", "p").unwrap(), u64::MAX);
}

#[test]
fn lens_reads_next_token() {
    let output = DescribeInstancesOutput {
        reservations: None,
        next_token: Some("tok".to_string()),
    };
    assert_eq!(
        reflens_describe_instances_output_output_next_token(&output),
        Some(&"tok".to_string())
    );
    let empty = DescribeInstancesOutput { reservations: None, next_token: None };
    assert_eq!(reflens_describe_instances_output_output_next_token(&empty), None);
}

#[test]
fn lens_takes_reservations() {
    let output = DescribeInstancesOutput {
        reservations: Some(vec![Reservation {
            reservation_id: Some("r-1".to_string()),
            owner_id: None,
        }]),
        next_token: None,
    };
    let reservations = lens_describe_instances_output_output_reservations(output).unwrap();
    assert_eq!(reservations.len(), 1);
    assert_eq!(reservations[0].reservation_id, Some("r-1".to_string()));
    let empty = DescribeInstancesOutput { reservations: None, next_token: None };
    assert!(lens_describe_instances_output_output_reservations(empty).is_none());
}
