//! Value types shared by the ladder builder and the pricer.

use vstd::prelude::*;

verus! {

/// A price level with both fields present.
#[derive(Clone, Copy, Debug, PartialEq, Eq, Structural)]
pub struct QuoteRecord {
    pub price: u64,
    pub quantity: u64,
}

/// A price level as a venue delivers it: either field may be absent.
#[derive(Clone, Copy, Debug, PartialEq, Eq)]
pub struct VenueQuote {
    pub price: Option<u64>,
    pub quantity: Option<u64>,
}

/// One venue's snapshot, in the order the venue sent it.
#[derive(Clone, Debug, PartialEq, Eq)]
pub struct VenueBook {
    pub bids: Vec<VenueQuote>,
    pub asks: Vec<VenueQuote>,
}

/// The side of the book a ladder is built from.
#[derive(Clone, Copy, Debug, PartialEq, Eq, Structural)]
pub enum Side {
    Bids,
    Asks,
}

/// Why a ladder could not be built.
#[derive(Clone, Copy, Debug, PartialEq, Eq, Structural)]
pub enum LadderError {
    /// A price or quantity text is not a decimal number this library reads.
    ParseError,
    /// The quantities do not add up to a representable depth.
    InvalidQuote,
}

/// One row of a depth ladder.
#[derive(Clone, Copy, Debug, PartialEq, Eq, Structural)]
pub struct LadderRow {
    pub price: u64,
    pub quantity: u64,
    pub cumulative_quantity: u64,
}

/// A venue quote is complete when neither field is absent.
pub open spec fn is_complete(q: VenueQuote) -> bool {
    q.price is Some && q.quantity is Some
}

/// The record that a complete venue quote stands for.
pub open spec fn record_of(q: VenueQuote) -> QuoteRecord {
    QuoteRecord { price: q.price->Some_0, quantity: q.quantity->Some_0 }
}

/// The quotes of one side of a book.
pub open spec fn book_side(book: VenueBook, side: Side) -> Seq<VenueQuote> {
    match side {
        Side::Bids => book.bids@,
        Side::Asks => book.asks@,
    }
}

/// The quotes of one side over all books, venue after venue, each venue's
/// quotes in the order it sent them.
pub open spec fn side_quotes(books: Seq<VenueBook>, side: Side) -> Seq<VenueQuote>
    decreases books.len(),
{
    if books.len() == 0 {
        Seq::empty()
    } else {
        side_quotes(books.drop_last(), side) + book_side(books.last(), side)
    }
}

/// The complete quotes of `s`, in their order; incomplete ones are left out
/// whole.
pub open spec fn complete_quotes(s: Seq<VenueQuote>) -> Seq<QuoteRecord>
    decreases s.len(),
{
    if s.len() == 0 {
        Seq::empty()
    } else if is_complete(s.last()) {
        complete_quotes(s.drop_last()).push(record_of(s.last()))
    } else {
        complete_quotes(s.drop_last())
    }
}

/// Dropping incomplete quotes goes through concatenation: each quote is kept
/// or dropped on its own, wherever it stands.
pub proof fn lemma_complete_quotes_concat(a: Seq<VenueQuote>, b: Seq<VenueQuote>)
    ensures
        complete_quotes(a + b) == complete_quotes(a) + complete_quotes(b),
    decreases b.len(),
{
    if b.len() == 0 {
        assert(a + b =~= a);
        assert(complete_quotes(a) + complete_quotes(b) =~= complete_quotes(a));
    } else {
        lemma_complete_quotes_concat(a, b.drop_last());
        assert((a + b).drop_last() =~= a + b.drop_last());
        assert((a + b).last() == b.last());
        if is_complete(b.last()) {
            assert(complete_quotes(a + b) =~= complete_quotes(a) + complete_quotes(b));
        }
    }
}

/// A single quote is kept exactly when it is complete.
pub proof fn lemma_complete_quotes_single(q: VenueQuote)
    ensures
        is_complete(q) ==> complete_quotes(seq![q]) == seq![record_of(q)],
        !is_complete(q) ==> complete_quotes(seq![q]) == Seq::<QuoteRecord>::empty(),
{
    let s = seq![q];
    assert(s.drop_last() =~= Seq::<VenueQuote>::empty());
    assert(s.last() == q);
    assert(complete_quotes(s.drop_last()) =~= Seq::<QuoteRecord>::empty());
    if is_complete(q) {
        assert(complete_quotes(s) =~= seq![record_of(q)]);
    }
}

/// An incomplete quote leaves no trace, and a complete one adds exactly its
/// record, wherever in the input it stands.
pub proof fn lemma_incomplete_rows_dropped(s: Seq<VenueQuote>, i: int)
    requires
        0 <= i < s.len(),
    ensures
        !is_complete(s[i]) ==> complete_quotes(s) == complete_quotes(s.remove(i)),
        is_complete(s[i]) ==> complete_quotes(s) == complete_quotes(s.take(i)).push(
            record_of(s[i]),
        ) + complete_quotes(s.skip(i + 1)),
        complete_quotes(s.remove(i)) == complete_quotes(s.take(i)) + complete_quotes(
            s.skip(i + 1),
        ),
{
    let head = s.take(i);
    let tail = s.skip(i + 1);
    assert(s =~= head + seq![s[i]] + tail);
    assert(s.remove(i) =~= head + tail);
    lemma_complete_quotes_concat(head + seq![s[i]], tail);
    lemma_complete_quotes_concat(head, seq![s[i]]);
    lemma_complete_quotes_concat(head, tail);
    lemma_complete_quotes_single(s[i]);
    if !is_complete(s[i]) {
        assert(complete_quotes(head) + Seq::<QuoteRecord>::empty() =~= complete_quotes(head));
    } else {
        assert(complete_quotes(head) + seq![record_of(s[i])] =~= complete_quotes(head).push(
            record_of(s[i]),
        ));
    }
}

} // verus!
