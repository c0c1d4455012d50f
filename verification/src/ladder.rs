//! Building a depth ladder from the quotes of several venues.

use vstd::prelude::*;
use crate::quote::{
    book_side, complete_quotes, is_complete, lemma_complete_quotes_concat, record_of, side_quotes,
    LadderError, LadderRow, QuoteRecord, Side, VenueBook, VenueQuote,
};

verus! {

/// Whether `a` must stand strictly in front of `b` in a ladder of the given
/// direction.
pub open spec fn ranks_before(a: QuoteRecord, b: QuoteRecord, descending: bool) -> bool {
    if descending {
        a.price > b.price
    } else {
        a.price < b.price
    }
}

/// `s` with `q` put in from the back: `q` passes the trailing quotes that it
/// ranks strictly before and stops behind the first one that it does not, so
/// behind every quote of its own price.
pub open spec fn insert_quote(s: Seq<QuoteRecord>, q: QuoteRecord, descending: bool) -> Seq<
    QuoteRecord,
>
    decreases s.len(),
{
    if s.len() == 0 {
        seq![q]
    } else if ranks_before(q, s.last(), descending) {
        insert_quote(s.drop_last(), q, descending).push(s.last())
    } else {
        s.push(q)
    }
}

/// The stable sort of `s` by price: quotes of equal price keep the order
/// they have in `s`.
pub open spec fn stable_sorted(s: Seq<QuoteRecord>, descending: bool) -> Seq<QuoteRecord>
    decreases s.len(),
{
    if s.len() == 0 {
        Seq::empty()
    } else {
        insert_quote(stable_sorted(s.drop_last(), descending), s.last(), descending)
    }
}

/// No quote stands behind one that it must stand in front of.
pub open spec fn ordered_by_price(s: Seq<QuoteRecord>, descending: bool) -> bool {
    forall|i: int, j: int| 0 <= i < j < s.len() ==> !ranks_before(s[j], s[i], descending)
}

/// The sum of the quantities of `s`.
pub open spec fn total_quantity(s: Seq<QuoteRecord>) -> nat
    decreases s.len(),
{
    if s.len() == 0 {
        0
    } else {
        total_quantity(s.drop_last()) + s.last().quantity as nat
    }
}

/// The depth in front of row `i`: the cumulative quantity of the row before
/// it, and nothing in front of the first row.
pub open spec fn depth_before(rows: Seq<LadderRow>, i: int) -> nat {
    if i <= 0 {
        0
    } else {
        rows[i - 1].cumulative_quantity as nat
    }
}

/// Each row's cumulative quantity is the depth in front of it plus its own
/// quantity.
pub open spec fn running_sum_holds(rows: Seq<LadderRow>) -> bool {
    forall|i: int|
        0 <= i < rows.len() ==> (#[trigger] rows[i]).cumulative_quantity == depth_before(rows, i)
            + rows[i].quantity
}

/// The price and quantity of each row, without the cumulative column.
pub open spec fn quotes_of(rows: Seq<LadderRow>) -> Seq<QuoteRecord> {
    Seq::new(rows.len(), |i: int| QuoteRecord { price: rows[i].price, quantity: rows[i].quantity })
}

/// One side's ladder: rows in ladder order with their cumulative depth.
#[derive(Clone, Debug, PartialEq, Eq)]
pub struct DepthLadder {
    rows: Vec<LadderRow>,
}

impl View for DepthLadder {
    type V = Seq<LadderRow>;

    closed spec fn view(&self) -> Seq<LadderRow> {
        self.rows@
    }
}

impl DepthLadder {
    /// The cumulative column is the running sum of the quantity column.
    pub open spec fn well_formed(&self) -> bool {
        running_sum_holds(self@)
    }

    /// The ladder of `quotes` in the order given, with the cumulative column
    /// filled in. Fails with `InvalidQuote` exactly when the quantities add
    /// up to more than a `u64` holds.
    pub fn from_quotes(quotes: &Vec<QuoteRecord>) -> (r: Result<DepthLadder, LadderError>)
        ensures
            r is Ok <==> total_quantity(quotes@) <= u64::MAX,
            r is Err ==> r->Err_0 == LadderError::InvalidQuote,
            r is Ok ==> r->Ok_0.well_formed() && quotes_of(r->Ok_0@) == quotes@,
    {
        let mut rows: Vec<LadderRow> = Vec::new();
        let mut depth: u64 = 0;
        let mut i: usize = 0;
        while i < quotes.len()
            invariant
                0 <= i <= quotes.len(),
                rows@.len() == i,
                running_sum_holds(rows@),
                depth == depth_before(rows@, i as int),
                depth == total_quantity(quotes@.take(i as int)),
                quotes_of(rows@) == quotes@.take(i as int),
            decreases quotes.len() - i,
        {
            let q = quotes[i];
            proof {
                assert(quotes@.take(i + 1).drop_last() =~= quotes@.take(i as int));
                assert(quotes@.take(i + 1).last() == q);
                lemma_prefix_quantity_grows(quotes@, i + 1, quotes@.len() as int);
                assert(quotes@.take(quotes@.len() as int) =~= quotes@);
            }
            if q.quantity > u64::MAX - depth {
                return Err(LadderError::InvalidQuote);
            }
            let ghost before = rows@;
            depth = depth + q.quantity;
            rows.push(LadderRow { price: q.price, quantity: q.quantity, cumulative_quantity: depth });
            proof {
                assert forall|k: int| 0 <= k < rows@.len() implies (#[trigger] rows@[k]).cumulative_quantity
                    == depth_before(rows@, k) + rows@[k].quantity by {
                    if k < i {
                        assert(rows@[k] == before[k]);
                        assert(depth_before(rows@, k) == depth_before(before, k));
                    }
                }
                assert(quotes_of(rows@) =~= quotes@.take(i + 1));
            }
            i += 1;
        }
        proof {
            assert(quotes@.take(i as int) =~= quotes@);
        }
        Ok(DepthLadder { rows })
    }

    /// The number of rows.
    pub fn len(&self) -> (n: usize)
        ensures
            n == self@.len(),
    {
        self.rows.len()
    }

    /// Whether the ladder has no rows.
    pub fn is_empty(&self) -> (b: bool)
        ensures
            b == (self@.len() == 0),
    {
        self.rows.len() == 0
    }

    /// Row `i`, counted from the best price.
    pub fn row(&self, i: usize) -> (r: Option<LadderRow>)
        ensures
            r == (if i < self@.len() {
                Some(self@[i as int])
            } else {
                None
            }),
    {
        if i < self.rows.len() {
            Some(self.rows[i])
        } else {
            None
        }
    }

    /// All rows, in ladder order.
    pub fn rows(&self) -> (r: &Vec<LadderRow>)
        ensures
            r@ == self@,
    {
        &self.rows
    }

    /// The depth of the whole ladder: the last row's cumulative quantity,
    /// and nothing for an empty ladder.
    pub fn total_depth(&self) -> (d: u64)
        ensures
            d == depth_before(self@, self@.len() as int),
    {
        let n: usize = self.rows.len();
        if n == 0 {
            0
        } else {
            self.rows[n - 1].cumulative_quantity
        }
    }
}

/// A longer prefix never holds less quantity than a shorter one.
pub proof fn lemma_prefix_quantity_grows(s: Seq<QuoteRecord>, i: int, j: int)
    requires
        0 <= i <= j <= s.len(),
    ensures
        total_quantity(s.take(i)) <= total_quantity(s.take(j)),
    decreases j - i,
{
    if i < j {
        lemma_prefix_quantity_grows(s, i, j - 1);
        assert(s.take(j).drop_last() =~= s.take(j - 1));
    }
}

/// Where `insert_quote` puts the new quote: at the one position `at` such
/// that it ranks before every quote from `at` on and not before the one in
/// front of `at`.
pub proof fn lemma_insert_position(s: Seq<QuoteRecord>, q: QuoteRecord, descending: bool, at: int)
    requires
        0 <= at <= s.len(),
        forall|k: int| at <= k < s.len() ==> ranks_before(q, #[trigger] s[k], descending),
        at > 0 ==> !ranks_before(q, s[at - 1], descending),
    ensures
        insert_quote(s, q, descending) == s.insert(at, q),
    decreases s.len(),
{
    if s.len() == 0 {
        assert(s.insert(at, q) =~= seq![q]);
    } else if at == s.len() {
        assert(s.insert(at, q) =~= s.push(q));
    } else {
        assert(ranks_before(q, s[s.len() - 1], descending));
        let front = s.drop_last();
        lemma_insert_position(front, q, descending, at);
        assert(front.insert(at, q).push(s.last()) =~= s.insert(at, q));
    }
}

/// A copy of `quotes` in ladder order: sorted by price, descending or
/// ascending, quotes of equal price in the order they came in.
pub fn sort_quotes(quotes: &Vec<QuoteRecord>, descending: bool) -> (out: Vec<QuoteRecord>)
    ensures
        out@ == stable_sorted(quotes@, descending),
{
    let mut out: Vec<QuoteRecord> = Vec::new();
    let mut i: usize = 0;
    while i < quotes.len()
        invariant
            0 <= i <= quotes.len(),
            out@ == stable_sorted(quotes@.take(i as int), descending),
            out@.len() == i,
        decreases quotes.len() - i,
    {
        let q = quotes[i];
        let mut at: usize = out.len();
        while at > 0 && outranks(&q, &out[at - 1], descending)
            invariant
                0 <= at <= out@.len(),
                forall|k: int| at <= k < out@.len() ==> ranks_before(q, #[trigger] out@[k], descending),
            decreases at,
        {
            at -= 1;
        }
        proof {
            lemma_insert_position(out@, q, descending, at as int);
            assert(quotes@.take(i + 1).drop_last() =~= quotes@.take(i as int));
            assert(quotes@.take(i + 1).last() == q);
        }
        out.insert(at, q);
        i += 1;
    }
    proof {
        assert(quotes@.take(i as int) =~= quotes@);
    }
    out
}

/// Whether `a` must stand strictly in front of `b`.
pub fn outranks(a: &QuoteRecord, b: &QuoteRecord, descending: bool) -> (r: bool)
    ensures
        r == ranks_before(*a, *b, descending),
{
    if descending {
        a.price > b.price
    } else {
        a.price < b.price
    }
}

/// The complete quotes of one side over all books, venue after venue.
pub fn collect_side(books: &Vec<VenueBook>, side: Side) -> (out: Vec<QuoteRecord>)
    ensures
        out@ == complete_quotes(side_quotes(books@, side)),
{
    let mut out: Vec<QuoteRecord> = Vec::new();
    let mut i: usize = 0;
    while i < books.len()
        invariant
            0 <= i <= books.len(),
            out@ == complete_quotes(side_quotes(books@.take(i as int), side)),
        decreases books.len() - i,
    {
        let quotes: &Vec<VenueQuote> = match side {
            Side::Bids => &books[i].bids,
            Side::Asks => &books[i].asks,
        };
        let ghost collected = out@;
        let mut j: usize = 0;
        while j < quotes.len()
            invariant
                0 <= j <= quotes.len(),
                out@ == collected + complete_quotes(quotes@.take(j as int)),
            decreases quotes.len() - j,
        {
            let v = quotes[j];
            proof {
                assert(quotes@.take(j + 1).drop_last() =~= quotes@.take(j as int));
                assert(quotes@.take(j + 1).last() == v);
            }
            match (v.price, v.quantity) {
                (Some(price), Some(quantity)) => {
                    out.push(QuoteRecord { price, quantity });
                    assert(out@ =~= collected + complete_quotes(quotes@.take(j + 1)));
                },
                _ => {},
            }
            j += 1;
        }
        proof {
            assert(quotes@.take(j as int) =~= quotes@);
            assert(books@.take(i + 1).drop_last() =~= books@.take(i as int));
            assert(books@.take(i + 1).last() == books@[i as int]);
            lemma_complete_quotes_concat(side_quotes(books@.take(i as int), side), quotes@);
        }
        i += 1;
    }
    proof {
        assert(books@.take(i as int) =~= books@);
    }
    out
}

/// The quotes that the ladder of one side is made of: the complete quotes of
/// that side over all books, in ladder order.
pub open spec fn ladder_quotes(books: Seq<VenueBook>, side: Side, descending: bool) -> Seq<
    QuoteRecord,
> {
    stable_sorted(complete_quotes(side_quotes(books, side)), descending)
}

/// What a build of one side's ladder must return: the ladder whose quotes
/// are `ladder_quotes` and whose cumulative column is their running sum, or
/// `InvalidQuote` where that sum leaves the range of `u64`.
pub open spec fn is_ladder_of(
    r: Result<DepthLadder, LadderError>,
    books: Seq<VenueBook>,
    side: Side,
    descending: bool,
) -> bool {
    match r {
        Ok(ladder) => {
            &&& total_quantity(complete_quotes(side_quotes(books, side))) <= u64::MAX
            &&& ladder.well_formed()
            &&& quotes_of(ladder@) == ladder_quotes(books, side, descending)
        },
        Err(e) => {
            &&& total_quantity(complete_quotes(side_quotes(books, side))) > u64::MAX
            &&& e == LadderError::InvalidQuote
        },
    }
}

/// Builds the ladder of one side from the books of all venues: the quotes
/// are taken venue after venue, incomplete ones are dropped, the rest is
/// sorted stably by price and the cumulative depth is filled in. Fails with
/// `InvalidQuote` exactly when the complete quotes hold more quantity than a
/// `u64` can count.
pub fn build_ladder(books: &Vec<VenueBook>, side: Side, descending: bool) -> (r: Result<
    DepthLadder,
    LadderError,
>)
    ensures
        is_ladder_of(r, books@, side, descending),
        r is Ok ==> ordered_by_price(quotes_of(r->Ok_0@), descending),
        r is Ok ==> forall|price: u64|
            at_price(quotes_of(r->Ok_0@), price) == at_price(
                complete_quotes(side_quotes(books@, side)),
                price,
            ),
{
    let collected = collect_side(books, side);
    let sorted = sort_quotes(&collected, descending);
    proof {
        lemma_sort_keeps_quantity(collected@, descending);
        lemma_sort_orders(collected@, descending);
        assert forall|price: u64|
            at_price(sorted@, price) == at_price(collected@, price) by {
            lemma_sort_is_stable(collected@, descending, price);
        }
    }
    DepthLadder::from_quotes(&sorted)
}

/// Putting a quote in adds its quantity to the total and nothing else.
pub proof fn lemma_insert_adds_quantity(s: Seq<QuoteRecord>, q: QuoteRecord, descending: bool)
    ensures
        total_quantity(insert_quote(s, q, descending)) == total_quantity(s) + q.quantity,
        insert_quote(s, q, descending).len() == s.len() + 1,
        insert_quote(s, q, descending).to_multiset() == s.to_multiset().insert(q),
    decreases s.len(),
{
    broadcast use vstd::seq_lib::group_to_multiset_ensures;

    let r = insert_quote(s, q, descending);
    if s.len() == 0 {
        assert(r.drop_last() =~= s);
        assert(r =~= s.push(q));
    } else if ranks_before(q, s.last(), descending) {
        let front = s.drop_last();
        lemma_insert_adds_quantity(front, q, descending);
        let inner = insert_quote(front, q, descending);
        assert(r.drop_last() =~= inner);
        assert(s =~= front.push(s.last()));
        assert(r.to_multiset() =~= s.to_multiset().insert(q));
    } else {
        assert(r.drop_last() =~= s);
    }
}

/// Sorting keeps the number of quotes, the quotes themselves and their
/// total quantity.
pub proof fn lemma_sort_keeps_quantity(s: Seq<QuoteRecord>, descending: bool)
    ensures
        total_quantity(stable_sorted(s, descending)) == total_quantity(s),
        stable_sorted(s, descending).len() == s.len(),
        stable_sorted(s, descending).to_multiset() == s.to_multiset(),
    decreases s.len(),
{
    broadcast use vstd::seq_lib::group_to_multiset_ensures;

    if s.len() > 0 {
        lemma_sort_keeps_quantity(s.drop_last(), descending);
        lemma_insert_adds_quantity(stable_sorted(s.drop_last(), descending), s.last(), descending);
        assert(s =~= s.drop_last().push(s.last()));
    } else {
        assert(stable_sorted(s, descending) =~= s);
    }
}

/// Putting a quote into an ordered sequence leaves it ordered.
pub proof fn lemma_insert_keeps_order(s: Seq<QuoteRecord>, q: QuoteRecord, descending: bool)
    requires
        ordered_by_price(s, descending),
    ensures
        ordered_by_price(insert_quote(s, q, descending), descending),
    decreases s.len(),
{
    let r = insert_quote(s, q, descending);
    if s.len() == 0 {
    } else if ranks_before(q, s.last(), descending) {
        let front = s.drop_last();
        assert(ordered_by_price(front, descending)) by {
            assert forall|i: int, j: int| 0 <= i < j < front.len() implies !ranks_before(
                front[j],
                front[i],
                descending,
            ) by {
                assert(front[i] == s[i] && front[j] == s[j]);
            }
        }
        lemma_insert_keeps_order(front, q, descending);
        lemma_insert_adds_quantity(front, q, descending);
        let inner = insert_quote(front, q, descending);
        lemma_insert_members(front, q, descending);
        assert forall|i: int, j: int| 0 <= i < j < r.len() implies !ranks_before(
            r[j],
            r[i],
            descending,
        ) by {
            if j < inner.len() {
                assert(r[i] == inner[i] && r[j] == inner[j]);
            } else {
                assert(r[j] == s.last());
                assert(r[i] == inner[i]);
                if inner[i] != q {
                    let k = choose|k: int| 0 <= k < front.len() && front[k] == inner[i];
                    assert(s[k] == front[k]);
                }
            }
        }
    } else {
        assert forall|i: int, j: int| 0 <= i < j < r.len() implies !ranks_before(
            r[j],
            r[i],
            descending,
        ) by {
            if j < s.len() {
                assert(r[i] == s[i] && r[j] == s[j]);
            } else {
                assert(r[j] == q);
                assert(r[i] == s[i]);
                if i < s.len() - 1 {
                    assert(!ranks_before(s[s.len() - 1], s[i], descending));
                }
            }
        }
    }
}

/// Every quote of `insert_quote(s, q, ..)` is `q` or a quote of `s`.
pub proof fn lemma_insert_members(s: Seq<QuoteRecord>, q: QuoteRecord, descending: bool)
    ensures
        forall|i: int|
            0 <= i < insert_quote(s, q, descending).len() ==> {
                let x = #[trigger] insert_quote(s, q, descending)[i];
                x == q || exists|k: int| 0 <= k < s.len() && s[k] == x
            },
    decreases s.len(),
{
    let r = insert_quote(s, q, descending);
    if s.len() == 0 {
    } else if ranks_before(q, s.last(), descending) {
        let front = s.drop_last();
        lemma_insert_members(front, q, descending);
        let inner = insert_quote(front, q, descending);
        assert forall|i: int| 0 <= i < r.len() implies {
            let x = #[trigger] r[i];
            x == q || exists|k: int| 0 <= k < s.len() && s[k] == x
        } by {
            if i < inner.len() {
                assert(r[i] == inner[i]);
                if inner[i] != q {
                    let k = choose|k: int| 0 <= k < front.len() && front[k] == inner[i];
                    assert(s[k] == r[i]);
                }
            } else {
                assert(s[s.len() - 1] == r[i]);
            }
        }
    } else {
        assert forall|i: int| 0 <= i < r.len() implies {
            let x = #[trigger] r[i];
            x == q || exists|k: int| 0 <= k < s.len() && s[k] == x
        } by {
            if i < s.len() {
                assert(s[i] == r[i]);
            }
        }
    }
}

/// A stable sort is ordered by price in the direction asked for.
pub proof fn lemma_sort_orders(s: Seq<QuoteRecord>, descending: bool)
    ensures
        ordered_by_price(stable_sorted(s, descending), descending),
    decreases s.len(),
{
    if s.len() > 0 {
        lemma_sort_orders(s.drop_last(), descending);
        lemma_insert_keeps_order(stable_sorted(s.drop_last(), descending), s.last(), descending);
    }
}

/// The quotes of `s` at one price, in their order.
pub open spec fn at_price(s: Seq<QuoteRecord>, price: u64) -> Seq<QuoteRecord>
    decreases s.len(),
{
    if s.len() == 0 {
        Seq::empty()
    } else if s.last().price == price {
        at_price(s.drop_last(), price).push(s.last())
    } else {
        at_price(s.drop_last(), price)
    }
}

/// A quote put in comes last among the quotes of its own price and leaves
/// the quotes of every other price as they were.
pub proof fn lemma_insert_goes_last_at_price(
    s: Seq<QuoteRecord>,
    q: QuoteRecord,
    descending: bool,
    price: u64,
)
    ensures
        q.price == price ==> at_price(insert_quote(s, q, descending), price) == at_price(
            s,
            price,
        ).push(q),
        q.price != price ==> at_price(insert_quote(s, q, descending), price) == at_price(s, price),
    decreases s.len(),
{
    let r = insert_quote(s, q, descending);
    if s.len() == 0 {
        assert(r.drop_last() =~= s);
        assert(r.last() == q);
    } else if ranks_before(q, s.last(), descending) {
        let front = s.drop_last();
        lemma_insert_goes_last_at_price(front, q, descending, price);
        assert(r.drop_last() =~= insert_quote(front, q, descending));
        assert(r.last() == s.last());
    } else {
        assert(r.drop_last() =~= s);
        assert(r.last() == q);
    }
}

/// Stability: at every price, the sorted quotes are the input's quotes at
/// that price in the input's order.
pub proof fn lemma_sort_is_stable(s: Seq<QuoteRecord>, descending: bool, price: u64)
    ensures
        at_price(stable_sorted(s, descending), price) == at_price(s, price),
    decreases s.len(),
{
    if s.len() > 0 {
        lemma_sort_is_stable(s.drop_last(), descending, price);
        lemma_insert_goes_last_at_price(
            stable_sorted(s.drop_last(), descending),
            s.last(),
            descending,
            price,
        );
    }
}

/// Where `s` holds quotes at `price`, one of its quotes has that price.
pub proof fn lemma_at_price_witness(s: Seq<QuoteRecord>, price: u64)
    requires
        at_price(s, price).len() > 0,
    ensures
        exists|k: int| 0 <= k < s.len() && (#[trigger] s[k]).price == price,
    decreases s.len(),
{
    if s.last().price == price {
        assert(s[s.len() - 1].price == price);
    } else {
        lemma_at_price_witness(s.drop_last(), price);
        let k = choose|k: int| 0 <= k < s.drop_last().len() && (#[trigger] s.drop_last()[k]).price
            == price;
        assert(s[k] == s.drop_last()[k]);
    }
}

/// The last quote of an ordered sequence has the price that every other
/// price of the sequence comes in front of.
proof fn lemma_last_price_ranks_last(s: Seq<QuoteRecord>, descending: bool, price: u64)
    requires
        ordered_by_price(s, descending),
        at_price(s, price).len() > 0,
    ensures
        s.len() > 0,
        if descending {
            s.last().price <= price
        } else {
            s.last().price >= price
        },
{
    lemma_at_price_witness(s, price);
    let k = choose|k: int| 0 <= k < s.len() && (#[trigger] s[k]).price == price;
    if k < s.len() - 1 {
        assert(!ranks_before(s[s.len() - 1], s[k], descending));
    }
}

/// Ladder order is unique: two orderings by price of the same quotes that
/// agree on the order of the quotes at every single price are the same
/// sequence. With `lemma_sort_orders` and `lemma_sort_is_stable` this makes
/// `stable_sorted(s, ..)` the one ordered arrangement of `s` that keeps
/// quotes of equal price in the order of `s`.
pub proof fn lemma_ladder_order_unique(a: Seq<QuoteRecord>, b: Seq<QuoteRecord>, descending: bool)
    requires
        ordered_by_price(a, descending),
        ordered_by_price(b, descending),
        forall|price: u64| at_price(a, price) == at_price(b, price),
    ensures
        a == b,
    decreases a.len(),
{
    if a.len() == 0 {
        if b.len() > 0 {
            assert(at_price(b, b.last().price).len() > 0);
            assert(at_price(a, b.last().price).len() == 0);
        }
        assert(a =~= b);
    } else {
        let x = a.last();
        assert(at_price(a, x.price).last() == x);
        assert(at_price(b, x.price) == at_price(a, x.price));
        lemma_last_price_ranks_last(b, descending, x.price);
        let y = b.last();
        assert(at_price(b, y.price).last() == y);
        assert(at_price(a, y.price) == at_price(b, y.price));
        lemma_last_price_ranks_last(a, descending, y.price);
        assert(x.price == y.price);
        assert(x == y);
        let front_a = a.drop_last();
        let front_b = b.drop_last();
        assert forall|i: int, j: int| 0 <= i < j < front_a.len() implies !ranks_before(
            front_a[j],
            front_a[i],
            descending,
        ) by {
            assert(front_a[i] == a[i] && front_a[j] == a[j]);
        }
        assert forall|i: int, j: int| 0 <= i < j < front_b.len() implies !ranks_before(
            front_b[j],
            front_b[i],
            descending,
        ) by {
            assert(front_b[i] == b[i] && front_b[j] == b[j]);
        }
        assert forall|price: u64| at_price(front_a, price) == at_price(front_b, price) by {
            assert(at_price(a, price) == at_price(b, price));
            if price == x.price {
                assert(at_price(front_a, price) =~= at_price(a, price).drop_last());
                assert(at_price(front_b, price) =~= at_price(b, price).drop_last());
            }
        }
        lemma_ladder_order_unique(front_a, front_b, descending);
        assert(a =~= front_a.push(x));
        assert(b =~= front_b.push(y));
    }
}

/// Each cumulative quantity is the sum of the quantities from the first row
/// through its own.
pub proof fn lemma_cumulative_is_running_sum(rows: Seq<LadderRow>, i: int)
    requires
        running_sum_holds(rows),
        0 <= i < rows.len(),
    ensures
        rows[i].cumulative_quantity == total_quantity(quotes_of(rows).take(i + 1)),
    decreases i,
{
    let prefix = quotes_of(rows).take(i + 1);
    assert(prefix.last().quantity == rows[i].quantity);
    if i > 0 {
        lemma_cumulative_is_running_sum(rows, i - 1);
        assert(prefix.drop_last() =~= quotes_of(rows).take(i));
    } else {
        assert(prefix.drop_last() =~= Seq::<QuoteRecord>::empty());
        assert(total_quantity(prefix.drop_last()) == 0);
    }
}

/// The cumulative column never decreases down the ladder.
pub proof fn lemma_cumulative_non_decreasing(rows: Seq<LadderRow>, i: int, j: int)
    requires
        running_sum_holds(rows),
        0 <= i <= j < rows.len(),
    ensures
        rows[i].cumulative_quantity <= rows[j].cumulative_quantity,
    decreases j - i,
{
    if i < j {
        lemma_cumulative_non_decreasing(rows, i, j - 1);
        assert(rows[j].cumulative_quantity == depth_before(rows, j) + rows[j].quantity);
    }
}

/// The depth in front of a row never exceeds the depth in front of a later
/// one, the end of the ladder included.
pub proof fn lemma_depth_before_grows(rows: Seq<LadderRow>, i: int, j: int)
    requires
        running_sum_holds(rows),
        0 <= i <= j <= rows.len(),
    ensures
        depth_before(rows, i) <= depth_before(rows, j),
{
    if 0 < i && i < j {
        lemma_cumulative_non_decreasing(rows, i - 1, j - 1);
    }
}

/// A ladder is determined by its quotes: two well-formed ladders over the
/// same quotes in the same order have the same rows.
pub proof fn lemma_rows_determined_by_quotes(a: Seq<LadderRow>, b: Seq<LadderRow>)
    requires
        running_sum_holds(a),
        running_sum_holds(b),
        quotes_of(a) == quotes_of(b),
    ensures
        a == b,
{
    assert(a.len() == quotes_of(a).len());
    assert(b.len() == quotes_of(b).len());
    assert forall|i: int| 0 <= i < a.len() implies a[i] == b[i] by {
        lemma_cumulative_is_running_sum(a, i);
        lemma_cumulative_is_running_sum(b, i);
        assert(quotes_of(a)[i] == quotes_of(b)[i]);
    }
    assert(a =~= b);
}

/// Determinism: whatever two builds from the same books, side and direction
/// return, they return the same, ladder for ladder and error for error.
pub proof fn lemma_build_is_deterministic(
    books: Seq<VenueBook>,
    side: Side,
    descending: bool,
    first: Result<DepthLadder, LadderError>,
    second: Result<DepthLadder, LadderError>,
)
    requires
        is_ladder_of(first, books, side, descending),
        is_ladder_of(second, books, side, descending),
    ensures
        first is Ok <==> second is Ok,
        first is Ok ==> first->Ok_0@ == second->Ok_0@,
        first is Err ==> first->Err_0 == second->Err_0,
{
    if first is Ok {
        lemma_rows_determined_by_quotes(first->Ok_0@, second->Ok_0@);
    }
}

} // verus!
