use cr_price::ladder::{build_ladder, collect_side, sort_quotes, DepthLadder};
use cr_price::quote::{LadderError, LadderRow, QuoteRecord, Side, VenueBook, VenueQuote};

fn quote(price: u64, quantity: u64) -> VenueQuote {
    VenueQuote { price: Some(price), quantity: Some(quantity) }
}

fn record(price: u64, quantity: u64) -> QuoteRecord {
    QuoteRecord { price, quantity }
}

fn row(price: u64, quantity: u64, cumulative_quantity: u64) -> LadderRow {
    LadderRow { price, quantity, cumulative_quantity }
}

fn bids_only(bids: Vec<VenueQuote>) -> VenueBook {
    VenueBook { bids, asks: Vec::new() }
}

fn asks_only(asks: Vec<VenueQuote>) -> VenueBook {
    VenueBook { bids: Vec::new(), asks }
}

#[test]
fn bid_ladder_is_descending_with_running_depth() {
    let books = vec![bids_only(vec![quote(100, 1), quote(105, 2), quote(95, 1)])];
    let ladder = build_ladder(&books, Side::Bids, true).unwrap();
    assert_eq!(ladder.rows(), &vec![row(105, 2, 2), row(100, 1, 3), row(95, 1, 4)]);
    assert_eq!(ladder.len(), 3);
    assert_eq!(ladder.total_depth(), 4);
}

#[test]
fn ask_ladder_is_ascending_with_running_depth() {
    let books = vec![asks_only(vec![quote(100, 1), quote(105, 2), quote(95, 1)])];
    let ladder = build_ladder(&books, Side::Asks, false).unwrap();
    assert_eq!(ladder.rows(), &vec![row(95, 1, 1), row(100, 1, 2), row(105, 2, 4)]);
}

#[test]
fn side_selects_the_matching_quotes() {
    let book = VenueBook { bids: vec![quote(10, 1)], asks: vec![quote(20, 2), quote(15, 3)] };
    let books = vec![book];
    let bids = build_ladder(&books, Side::Bids, true).unwrap();
    let asks = build_ladder(&books, Side::Asks, false).unwrap();
    assert_eq!(bids.rows(), &vec![row(10, 1, 1)]);
    assert_eq!(asks.rows(), &vec![row(15, 3, 3), row(20, 2, 5)]);
}

#[test]
fn building_twice_gives_the_same_ladder() {
    let books = vec![
        asks_only(vec![quote(7, 3), quote(5, 1), quote(7, 9)]),
        asks_only(vec![quote(6, 2), quote(5, 4)]),
    ];
    let first = build_ladder(&books, Side::Asks, false);
    let second = build_ladder(&books, Side::Asks, false);
    assert_eq!(first, second);
    assert!(first.is_ok());
}

#[test]
fn cumulative_column_is_the_running_sum() {
    let books = vec![
        asks_only(vec![quote(30, 4), quote(10, 6), quote(20, 0)]),
        asks_only(vec![quote(25, 5), quote(15, 7)]),
    ];
    let ladder = build_ladder(&books, Side::Asks, false).unwrap();
    let rows = ladder.rows();
    let mut sum: u64 = 0;
    let mut previous: u64 = 0;
    for r in rows.iter() {
        sum += r.quantity;
        assert_eq!(r.cumulative_quantity, sum);
        assert!(r.cumulative_quantity >= previous);
        previous = r.cumulative_quantity;
    }
    assert_eq!(rows.len(), 5);
    assert_eq!(sum, 22);
}

#[test]
fn incomplete_rows_are_dropped_whole() {
    let books = vec![asks_only(vec![
        quote(10, 1),
        VenueQuote { price: None, quantity: Some(5) },
        quote(8, 2),
        VenueQuote { price: Some(9), quantity: None },
        VenueQuote { price: None, quantity: None },
        quote(12, 3),
    ])];
    let ladder = build_ladder(&books, Side::Asks, false).unwrap();
    assert_eq!(ladder.rows(), &vec![row(8, 2, 2), row(10, 1, 3), row(12, 3, 6)]);
}

#[test]
fn only_incomplete_rows_give_an_empty_ladder() {
    let books = vec![asks_only(vec![VenueQuote { price: None, quantity: Some(5) }])];
    let ladder = build_ladder(&books, Side::Asks, false).unwrap();
    assert!(ladder.is_empty());
    assert_eq!(ladder.total_depth(), 0);
    assert_eq!(ladder.row(0), None);
}

#[test]
fn no_books_give_an_empty_ladder() {
    let books: Vec<VenueBook> = Vec::new();
    let ladder = build_ladder(&books, Side::Bids, true).unwrap();
    assert_eq!(ladder.len(), 0);
}

#[test]
fn equal_prices_keep_venue_order_and_stay_apart() {
    let books = vec![
        bids_only(vec![quote(100, 1), quote(101, 2)]),
        bids_only(vec![quote(101, 3), quote(100, 4), quote(101, 5)]),
    ];
    let ladder = build_ladder(&books, Side::Bids, true).unwrap();
    assert_eq!(
        ladder.rows(),
        &vec![row(101, 2, 2), row(101, 3, 5), row(101, 5, 10), row(100, 1, 11), row(100, 4, 15)]
    );
    let ascending = build_ladder(&books, Side::Bids, false).unwrap();
    assert_eq!(
        ascending.rows(),
        &vec![row(100, 1, 1), row(100, 4, 5), row(101, 2, 7), row(101, 3, 10), row(101, 5, 15)]
    );
}

#[test]
fn depth_beyond_the_range_is_an_invalid_quote() {
    let books = vec![asks_only(vec![quote(1, u64::MAX), quote(2, 1)])];
    assert_eq!(build_ladder(&books, Side::Asks, false), Err(LadderError::InvalidQuote));
    let just_fits = vec![asks_only(vec![quote(1, u64::MAX - 1), quote(2, 1)])];
    let ladder = build_ladder(&just_fits, Side::Asks, false).unwrap();
    assert_eq!(ladder.total_depth(), u64::MAX);
}

#[test]
fn collect_side_keeps_venue_order() {
    let books = vec![
        VenueBook { bids: vec![quote(3, 1), quote(1, 1)], asks: vec![quote(9, 9)] },
        VenueBook { bids: vec![quote(2, 1)], asks: vec![] },
    ];
    assert_eq!(collect_side(&books, Side::Bids), vec![record(3, 1), record(1, 1), record(2, 1)]);
    assert_eq!(collect_side(&books, Side::Asks), vec![record(9, 9)]);
}

#[test]
fn sort_quotes_is_stable_both_ways() {
    let quotes = vec![record(2, 10), record(1, 20), record(2, 30), record(1, 40)];
    assert_eq!(
        sort_quotes(&quotes, false),
        vec![record(1, 20), record(1, 40), record(2, 10), record(2, 30)]
    );
    assert_eq!(
        sort_quotes(&quotes, true),
        vec![record(2, 10), record(2, 30), record(1, 20), record(1, 40)]
    );
}

#[test]
fn from_quotes_keeps_the_given_order() {
    let ladder = DepthLadder::from_quotes(&vec![record(5, 1), record(3, 2)]).unwrap();
    assert_eq!(ladder.rows(), &vec![row(5, 1, 1), row(3, 2, 3)]);
    assert_eq!(ladder.row(1), Some(row(3, 2, 3)));
    assert_eq!(ladder.row(2), None);
    assert_eq!(
        DepthLadder::from_quotes(&vec![record(5, u64::MAX), record(3, 1)]),
        Err(LadderError::InvalidQuote)
    );
}
