//! The order books of the two venues as they arrive, prices and quantities
//! still in decimal text, and their reading into venue books.

use vstd::prelude::*;
use vstd::utf8::encode_utf8;
use crate::decimal::{parse_decimal, parsed};
use crate::quote::{LadderError, VenueBook, VenueQuote};

verus! {

/// An order book of the first venue: each level is price text, quantity
/// text and the number of orders at that price.
#[derive(Debug)]
pub struct CoinBaseData {
    pub bids: Vec<(String, String, u64)>,
    pub asks: Vec<(String, String, u64)>,
}

/// A level of the second venue's book.
#[derive(Debug)]
pub struct GemOrder {
    pub price: String,
    pub amount: String,
}

/// An order book of the second venue.
#[derive(Debug)]
pub struct GeminData {
    pub bids: Vec<GemOrder>,
    pub asks: Vec<GemOrder>,
}

/// The quote that a price text and a quantity text write, or `ParseError`
/// where either is no decimal that a `u64` holds.
pub open spec fn text_quote(price: Seq<char>, quantity: Seq<char>) -> Result<
    VenueQuote,
    LadderError,
> {
    match (parsed(encode_utf8(price)), parsed(encode_utf8(quantity))) {
        (Ok(p), Ok(q)) => Ok(VenueQuote { price: Some(p), quantity: Some(q) }),
        _ => Err(LadderError::ParseError),
    }
}

/// The quotes that a side of the first venue's book writes, level by level,
/// or `None` where a level does not parse.
pub open spec fn coinbase_side(levels: Seq<(String, String, u64)>) -> Option<Seq<VenueQuote>> {
    if forall|i: int| 0 <= i < levels.len() ==> (#[trigger] text_quote(levels[i].0@, levels[i].1@)) is Ok {
        Some(Seq::new(levels.len(), |i: int| text_quote(levels[i].0@, levels[i].1@)->Ok_0))
    } else {
        None
    }
}

/// The quotes that a side of the second venue's book writes, order by
/// order, or `None` where an order does not parse.
pub open spec fn gemini_side(orders: Seq<GemOrder>) -> Option<Seq<VenueQuote>> {
    if forall|i: int| 0 <= i < orders.len() ==> (#[trigger] text_quote(orders[i].price@, orders[i].amount@)) is Ok {
        Some(Seq::new(orders.len(), |i: int| text_quote(orders[i].price@, orders[i].amount@)->Ok_0))
    } else {
        None
    }
}

/// What reading a whole book gives: the book of both sides where every text
/// parses, and `ParseError` otherwise, with nothing of the book kept.
pub open spec fn book_read(
    bids: Option<Seq<VenueQuote>>,
    asks: Option<Seq<VenueQuote>>,
    r: Result<VenueBook, LadderError>,
) -> bool {
    match (bids, asks) {
        (Some(b), Some(a)) => r is Ok && r->Ok_0.bids@ == b && r->Ok_0.asks@ == a,
        _ => r == Err::<VenueBook, LadderError>(LadderError::ParseError),
    }
}

/// Reads one level's two texts.
pub fn read_quote(price: &str, quantity: &str) -> (r: Result<VenueQuote, LadderError>)
    ensures
        r == text_quote(price@, quantity@),
{
    match parse_decimal(price) {
        Ok(p) => match parse_decimal(quantity) {
            Ok(q) => Ok(VenueQuote { price: Some(p), quantity: Some(q) }),
            Err(_) => Err(LadderError::ParseError),
        },
        Err(_) => Err(LadderError::ParseError),
    }
}

/// Reads one side of the first venue's book.
pub fn coinbase_quotes(levels: &Vec<(String, String, u64)>) -> (r: Result<
    Vec<VenueQuote>,
    LadderError,
>)
    ensures
        match coinbase_side(levels@) {
            Some(quotes) => r is Ok && r->Ok_0@ == quotes,
            None => r == Err::<Vec<VenueQuote>, LadderError>(LadderError::ParseError),
        },
{
    let mut out: Vec<VenueQuote> = Vec::new();
    let mut i: usize = 0;
    while i < levels.len()
        invariant
            0 <= i <= levels.len(),
            out@.len() == i,
            forall|k: int|
                0 <= k < i ==> (#[trigger] text_quote(levels@[k].0@, levels@[k].1@)) == Ok::<
                    VenueQuote,
                    LadderError,
                >(out@[k]),
        decreases levels.len() - i,
    {
        let level = &levels[i];
        match read_quote(level.0.as_str(), level.1.as_str()) {
            Ok(q) => {
                out.push(q);
            },
            Err(_) => {
                assert(text_quote(levels@[i as int].0@, levels@[i as int].1@) is Err);
                return Err(LadderError::ParseError);
            },
        }
        i += 1;
    }
    proof {
        assert(out@ =~= coinbase_side(levels@)->Some_0);
    }
    Ok(out)
}

/// Reads one side of the second venue's book.
pub fn gemini_quotes(orders: &Vec<GemOrder>) -> (r: Result<Vec<VenueQuote>, LadderError>)
    ensures
        match gemini_side(orders@) {
            Some(quotes) => r is Ok && r->Ok_0@ == quotes,
            None => r == Err::<Vec<VenueQuote>, LadderError>(LadderError::ParseError),
        },
{
    let mut out: Vec<VenueQuote> = Vec::new();
    let mut i: usize = 0;
    while i < orders.len()
        invariant
            0 <= i <= orders.len(),
            out@.len() == i,
            forall|k: int|
                0 <= k < i ==> (#[trigger] text_quote(orders@[k].price@, orders@[k].amount@))
                    == Ok::<VenueQuote, LadderError>(out@[k]),
        decreases orders.len() - i,
    {
        let order = &orders[i];
        match read_quote(order.price.as_str(), order.amount.as_str()) {
            Ok(q) => {
                out.push(q);
            },
            Err(_) => {
                assert(text_quote(orders@[i as int].price@, orders@[i as int].amount@) is Err);
                return Err(LadderError::ParseError);
            },
        }
        i += 1;
    }
    proof {
        assert(out@ =~= gemini_side(orders@)->Some_0);
    }
    Ok(out)
}

/// Reads the first venue's book, bids before asks. One text that does not
/// parse fails the whole book.
pub fn coinbase_book(data: &CoinBaseData) -> (r: Result<VenueBook, LadderError>)
    ensures
        book_read(coinbase_side(data.bids@), coinbase_side(data.asks@), r),
{
    let bids = match coinbase_quotes(&data.bids) {
        Ok(b) => b,
        Err(_) => {
            return Err(LadderError::ParseError);
        },
    };
    let asks = match coinbase_quotes(&data.asks) {
        Ok(a) => a,
        Err(_) => {
            return Err(LadderError::ParseError);
        },
    };
    Ok(VenueBook { bids, asks })
}

/// Reads the second venue's book, bids before asks. One text that does not
/// parse fails the whole book.
pub fn gemini_book(data: &GeminData) -> (r: Result<VenueBook, LadderError>)
    ensures
        book_read(gemini_side(data.bids@), gemini_side(data.asks@), r),
{
    let bids = match gemini_quotes(&data.bids) {
        Ok(b) => b,
        Err(_) => {
            return Err(LadderError::ParseError);
        },
    };
    let asks = match gemini_quotes(&data.asks) {
        Ok(a) => a,
        Err(_) => {
            return Err(LadderError::ParseError);
        },
    };
    Ok(VenueBook { bids, asks })
}

} // verus!
