//! An order book for one currency pair: a bid side and an ask side, with
//! sorting, spread, liquidity and admission of new orders.
use vstd::prelude::*;

use crate::currency::{currency_eq, currency_wf, Currency};
use crate::decimal::{dec_le, div_of, lemma_dec_le_trans, sub_of, Dec};
use crate::exceptions::OrderBookException;
use crate::order::{order_flipped, order_wf, Order};
use crate::order_books::{Flip, IsLiquid};

verus! {

broadcast use vstd::seq_lib::group_to_multiset_ensures;

/// Which side of a book a sequence of orders belongs to.
#[derive(Debug, Clone, Copy, PartialEq, Eq, Structural)]
pub enum OrderBookSideType {
    Bids,
    Asks,
}

/// One side of an order book: its identity and its ordered offers.
#[derive(Debug)]
pub struct OrderBookSide {
    pub side_type: OrderBookSideType,
    pub orders: Vec<Order>,
}

/// A market for one currency pair.  `base` is the currency being sold into
/// `counter`; asks are flipped into the same orientation before storage.
#[derive(Debug)]
pub struct OrderBook {
    pub base: Currency,
    pub counter: Currency,
    pub bids: OrderBookSide,
    pub asks: OrderBookSide,
}

/// Every order the side stores is representable.
pub open spec fn side_wf(s: OrderBookSide) -> bool {
    forall|i: int| 0 <= i < s.orders@.len() ==> order_wf(#[trigger] s.orders@[i])
}

/// Rates never increase along the sequence: index 0 is the best bid.
pub open spec fn sorted_desc(s: Seq<Order>) -> bool {
    forall|i: int| 0 <= i && i + 1 < s.len() ==> dec_le(#[trigger] s[i + 1].rate, s[i].rate)
}

/// Rates never decrease along the sequence: index 0 is the best ask.
pub open spec fn sorted_asc(s: Seq<Order>) -> bool {
    forall|i: int| 0 <= i && i + 1 < s.len() ==> dec_le(#[trigger] s[i].rate, s[i + 1].rate)
}

/// The book's decimals are representable and its sides carry their own
/// identity.
pub open spec fn book_wf(b: OrderBook) -> bool {
    &&& side_wf(b.bids)
    &&& side_wf(b.asks)
    &&& currency_wf(b.base)
    &&& currency_wf(b.counter)
    &&& b.bids.side_type == OrderBookSideType::Bids
    &&& b.asks.side_type == OrderBookSideType::Asks
}

/// Every stored order's currency pair matches the book's own exactly (asks
/// are flipped into base/counter terms before storage).
pub open spec fn book_oriented(b: OrderBook) -> bool {
    &&& forall|i: int|
        0 <= i < b.bids.orders@.len() ==> currency_eq((#[trigger] b.bids.orders@[i]).base, b.base)
            && currency_eq(b.bids.orders@[i].counter, b.counter)
    &&& forall|i: int|
        0 <= i < b.asks.orders@.len() ==> currency_eq((#[trigger] b.asks.orders@[i]).base, b.base)
            && currency_eq(b.asks.orders@[i].counter, b.counter)
}

/// Bids descending, asks ascending: the best offer of each side at index 0.
pub open spec fn book_sorted(b: OrderBook) -> bool {
    &&& sorted_desc(b.bids.orders@)
    &&& sorted_asc(b.asks.orders@)
}

/// `post` is `pre` with both sides re-sorted: the same orders, the same
/// identity, bids descending and asks ascending.
pub open spec fn resorted(post: OrderBook, pre: OrderBook) -> bool {
    &&& post.base == pre.base
    &&& post.counter == pre.counter
    &&& post.bids.side_type == pre.bids.side_type
    &&& post.asks.side_type == pre.asks.side_type
    &&& post.bids.orders@.to_multiset() == pre.bids.orders@.to_multiset()
    &&& post.asks.orders@.to_multiset() == pre.asks.orders@.to_multiset()
    &&& post.bids.orders@.len() == pre.bids.orders@.len()
    &&& post.asks.orders@.len() == pre.asks.orders@.len()
    &&& book_sorted(post)
}

/// The relative spread `(best_ask.rate - best_bid.rate) / best_bid.rate`,
/// read from the front of each side.
pub open spec fn spread_pct_of(b: OrderBook) -> Dec {
    div_of(
        sub_of(b.asks.orders@[0].rate, b.bids.orders@[0].rate)->0,
        b.bids.orders@[0].rate,
    )->0
}

/// The spread is defined: both sides quoted, a non-zero best bid, and
/// neither the difference nor the quotient overflows.
pub open spec fn spread_defined(b: OrderBook) -> bool {
    &&& b.bids.orders@.len() > 0
    &&& b.asks.orders@.len() > 0
    &&& b.bids.orders@[0].rate.mantissa != 0
    &&& sub_of(b.asks.orders@[0].rate, b.bids.orders@[0].rate) is Some
    &&& div_of(
        sub_of(b.asks.orders@[0].rate, b.bids.orders@[0].rate)->0,
        b.bids.orders@[0].rate,
    ) is Some
}

/// Which side a new order belongs to: bids when its pair matches the book's
/// orientation exactly, asks when it is the exact reverse, neither otherwise.
pub open spec fn side_for_order(b: OrderBook, o: Order) -> Option<OrderBookSideType> {
    if currency_eq(o.base, b.base) && currency_eq(o.counter, b.counter) {
        Some(OrderBookSideType::Bids)
    } else if currency_eq(o.base, b.counter) && currency_eq(o.counter, b.base) {
        Some(OrderBookSideType::Asks)
    } else {
        None
    }
}

/// Two sides carry the same identity and the same orders.
pub open spec fn side_equiv(a: OrderBookSide, b: OrderBookSide) -> bool {
    &&& a.side_type == b.side_type
    &&& a.orders@ == b.orders@
}

/// Two books carry the same currencies and the same orders on both sides.
pub open spec fn book_equiv(a: OrderBook, b: OrderBook) -> bool {
    &&& a.base == b.base
    &&& a.counter == b.counter
    &&& side_equiv(a.bids, b.bids)
    &&& side_equiv(a.asks, b.asks)
}

/// `a` may stand before `b` in a sequence sorted in the given direction.
pub open spec fn ranks_before(a: Order, b: Order, descending: bool) -> bool {
    if descending {
        dec_le(b.rate, a.rate)
    } else {
        dec_le(a.rate, b.rate)
    }
}

/// `a` strictly outranks `b` in the given direction: `a`'s rate is
/// strictly better.
pub open spec fn outranks(a: Order, b: Order, descending: bool) -> bool {
    if descending {
        crate::decimal::dec_lt(b.rate, a.rate)
    } else {
        crate::decimal::dec_lt(a.rate, b.rate)
    }
}

/// The earliest index of a best-ranked order among the first `k`.
pub open spec fn best_index_upto(s: Seq<Order>, k: int, descending: bool) -> int
    decreases k,
{
    if k <= 1 {
        0
    } else {
        let m = best_index_upto(s, k - 1, descending);
        if outranks(s[k - 1], s[m], descending) {
            k - 1
        } else {
            m
        }
    }
}

/// The earliest best index lies among the first `k` positions.
pub proof fn lemma_best_index_bounds(s: Seq<Order>, k: int, descending: bool)
    requires
        1 <= k,
    ensures
        0 <= best_index_upto(s, k, descending) < k,
    decreases k,
{
    if k > 1 {
        lemma_best_index_bounds(s, k - 1, descending);
    }
}

/// The sequence sorted by rate in the given direction: the earliest
/// best-ranked order first, then the rest, recursively.  This pins the
/// result down to a single sequence, ties included.
pub open spec fn sort_orders_spec(s: Seq<Order>, descending: bool) -> Seq<Order>
    decreases s.len(),
    via sort_orders_spec_decreases
{
    if s.len() == 0 {
        Seq::empty()
    } else {
        let m = best_index_upto(s, s.len() as int, descending);
        seq![s[m]] + sort_orders_spec(s.remove(m), descending)
    }
}

#[via_fn]
proof fn sort_orders_spec_decreases(s: Seq<Order>, descending: bool) {
    if s.len() > 0 {
        lemma_best_index_bounds(s, s.len() as int, descending);
    }
}

/// The spec-level sort keeps the length.
pub proof fn lemma_sort_spec_len(s: Seq<Order>, descending: bool)
    ensures
        sort_orders_spec(s, descending).len() == s.len(),
    decreases s.len(),
{
    if s.len() > 0 {
        lemma_best_index_bounds(s, s.len() as int, descending);
        let m = best_index_upto(s, s.len() as int, descending);
        lemma_sort_spec_len(s.remove(m), descending);
    }
}

/// In a sorted sequence every earlier order ranks no worse than every
/// later one.
pub proof fn lemma_sorted_pairwise(s: Seq<Order>, descending: bool, i: int, j: int)
    requires
        0 <= i <= j < s.len(),
        descending ==> sorted_desc(s),
        !descending ==> sorted_asc(s),
    ensures
        ranks_before(s[i], s[j], descending),
    decreases j - i,
{
    if i < j {
        lemma_sorted_pairwise(s, descending, i, j - 1);
        assert(s[j] == s[(j - 1) + 1]);
        if descending {
            assert(dec_le(s[(j - 1) + 1].rate, s[j - 1].rate));
            lemma_dec_le_trans(s[j].rate, s[j - 1].rate, s[i].rate);
        } else {
            assert(dec_le(s[j - 1].rate, s[(j - 1) + 1].rate));
            lemma_dec_le_trans(s[i].rate, s[j - 1].rate, s[j].rate);
        }
    }
}

proof fn lemma_best_index_of_sorted(s: Seq<Order>, k: int, descending: bool)
    requires
        1 <= k <= s.len(),
        descending ==> sorted_desc(s),
        !descending ==> sorted_asc(s),
    ensures
        best_index_upto(s, k, descending) == 0,
    decreases k,
{
    if k > 1 {
        lemma_best_index_of_sorted(s, k - 1, descending);
        lemma_sorted_pairwise(s, descending, 0, k - 1);
    }
}

/// Sorting a sequence already sorted in that direction leaves it exactly
/// as it stands: the sort is idempotent.
pub proof fn lemma_sort_spec_of_sorted(s: Seq<Order>, descending: bool)
    requires
        descending ==> sorted_desc(s),
        !descending ==> sorted_asc(s),
    ensures
        sort_orders_spec(s, descending) == s,
    decreases s.len(),
{
    if s.len() > 0 {
        lemma_best_index_of_sorted(s, s.len() as int, descending);
        let rest = s.remove(0);
        assert(rest =~= s.drop_first());
        if descending {
            assert(sorted_desc(rest)) by {
                assert forall|i: int| 0 <= i && i + 1 < rest.len() implies dec_le(
                    #[trigger] rest[i + 1].rate,
                    rest[i].rate,
                ) by {
                    assert(rest[i] == s[i + 1]);
                    assert(rest[i + 1] == s[i + 2]);
                }
            }
        } else {
            assert(sorted_asc(rest)) by {
                assert forall|i: int| 0 <= i && i + 1 < rest.len() implies dec_le(
                    #[trigger] rest[i].rate,
                    rest[i + 1].rate,
                ) by {
                    assert(rest[i] == s[i + 1]);
                    assert(rest[i + 1] == s[i + 2]);
                }
            }
        }
        lemma_sort_spec_of_sorted(rest, descending);
        assert(seq![s[0]] + rest =~= s);
    }
}

/// Sequences with equal multisets have the same members.
pub proof fn lemma_same_multiset_same_members(a: Seq<Order>, b: Seq<Order>)
    requires
        a.to_multiset() == b.to_multiset(),
    ensures
        forall|i: int| 0 <= i < b.len() ==> a.contains(#[trigger] b[i]),
{
    assert forall|i: int| 0 <= i < b.len() implies a.contains(#[trigger] b[i]) by {
        assert(b.contains(b[i]));
        assert(b.to_multiset().count(b[i]) > 0);
    }
}

/// Selection sort by rate, in the direction asked for: exactly the
/// sequence `sort_orders_spec` states, picking the earliest best-ranked
/// order at each step.
fn sort_orders_by_rate(v: &mut Vec<Order>, descending: bool)
    requires
        forall|i: int| 0 <= i < old(v)@.len() ==> order_wf(#[trigger] old(v)@[i]),
    ensures
        final(v)@ == sort_orders_spec(old(v)@, descending),
        final(v)@.to_multiset() == old(v)@.to_multiset(),
        final(v)@.len() == old(v)@.len(),
        descending ==> sorted_desc(final(v)@),
        !descending ==> sorted_asc(final(v)@),
        forall|i: int| 0 <= i < final(v)@.len() ==> order_wf(#[trigger] final(v)@[i]),
{
    let ghost orig = v@;
    let mut out: Vec<Order> = Vec::new();
    proof {
        assert(out@.to_multiset().add(v@.to_multiset()) =~= orig.to_multiset());
        assert(out@ + sort_orders_spec(v@, descending) =~= sort_orders_spec(orig, descending));
    }
    while v.len() > 0
        invariant
            out@ + sort_orders_spec(v@, descending) == sort_orders_spec(orig, descending),
            out@.to_multiset().add(v@.to_multiset()) == orig.to_multiset(),
            out@.len() + v@.len() == orig.len(),
            forall|i: int| 0 <= i < v@.len() ==> order_wf(#[trigger] v@[i]),
            forall|i: int| 0 <= i < out@.len() ==> order_wf(#[trigger] out@[i]),
            descending ==> sorted_desc(out@),
            !descending ==> sorted_asc(out@),
            forall|i: int, j: int|
                0 <= i < out@.len() && 0 <= j < v@.len() ==> ranks_before(
                    #[trigger] out@[i],
                    #[trigger] v@[j],
                    descending,
                ),
        decreases v@.len(),
    {
        let mut m: usize = 0;
        let mut k: usize = 1;
        while k < v.len()
            invariant
                v@.len() > 0,
                m < k,
                1 <= k <= v@.len(),
                m as int == best_index_upto(v@, k as int, descending),
                forall|i: int| 0 <= i < v@.len() ==> order_wf(#[trigger] v@[i]),
                forall|t: int| 0 <= t < k ==> ranks_before(v@[m as int], #[trigger] v@[t], descending),
            decreases v@.len() - k,
        {
            let replace = if descending {
                v[m].rate.lt(&v[k].rate)
            } else {
                v[k].rate.lt(&v[m].rate)
            };
            if replace {
                proof {
                    assert forall|t: int|
                        0 <= t < k implies ranks_before(v@[k as int], #[trigger] v@[t], descending) by {
                        if descending {
                            lemma_dec_le_trans(v@[t].rate, v@[m as int].rate, v@[k as int].rate);
                        } else {
                            lemma_dec_le_trans(v@[k as int].rate, v@[m as int].rate, v@[t].rate);
                        }
                    }
                }
                m = k;
            }
            k = k + 1;
        }
        let ghost pre = v@;
        proof {
            assert(m as int == best_index_upto(pre, pre.len() as int, descending));
            assert(sort_orders_spec(pre, descending) == seq![pre[m as int]] + sort_orders_spec(
                pre.remove(m as int),
                descending,
            ));
        }
        let ghost out_pre = out@;
        let x = v.remove(m);
        out.push(x);
        proof {
            assert(pre.contains(pre[m as int]));
            assert(pre.to_multiset().count(x) > 0);
            assert(out@.to_multiset().add(v@.to_multiset()) =~= orig.to_multiset());
            assert(out@ =~= out_pre + seq![x]);
            assert(seq![x] + sort_orders_spec(v@, descending) == sort_orders_spec(
                pre,
                descending,
            ));
            assert((out_pre + seq![x]) + sort_orders_spec(v@, descending) =~= out_pre + (
            seq![x] + sort_orders_spec(v@, descending)));
            assert(out@ + sort_orders_spec(v@, descending) =~= sort_orders_spec(
                orig,
                descending,
            ));
        }
        proof {
            assert forall|i: int, j: int|
                0 <= i < out@.len() && 0 <= j < v@.len() implies ranks_before(
                #[trigger] out@[i],
                #[trigger] v@[j],
                descending,
            ) by {
                if j < m {
                    assert(v@[j] == pre[j]);
                } else {
                    assert(v@[j] == pre[j + 1]);
                }
            }
        }
    }
    proof {
        assert(sort_orders_spec(v@, descending) == Seq::<Order>::empty());
        assert(out@ + sort_orders_spec(v@, descending) =~= out@);
    }
    *v = out;
}

/// An element-wise copy of a sequence of orders.
fn clone_orders(orders: &Vec<Order>) -> (r: Vec<Order>)
    ensures
        r@ == orders@,
{
    let mut r: Vec<Order> = Vec::new();
    let mut i: usize = 0;
    while i < orders.len()
        invariant
            i <= orders@.len(),
            r@ =~= orders@.subrange(0, i as int),
        decreases orders@.len() - i,
    {
        r.push(orders[i].clone());
        proof {
            assert(r@ =~= orders@.subrange(0, i + 1));
        }
        i = i + 1;
    }
    proof {
        assert(r@ =~= orders@);
    }
    r
}

impl Clone for OrderBookSide {
    fn clone(&self) -> (r: OrderBookSide)
        ensures
            side_equiv(r, *self),
    {
        OrderBookSide { side_type: self.side_type, orders: clone_orders(&self.orders) }
    }
}

impl Clone for OrderBook {
    fn clone(&self) -> (r: OrderBook)
        ensures
            book_equiv(r, *self),
    {
        OrderBook {
            base: self.base.clone(),
            counter: self.counter.clone(),
            bids: self.bids.clone(),
            asks: self.asks.clone(),
        }
    }
}

impl From<(Vec<Order>, OrderBookSideType)> for OrderBookSide {
    fn from(parts: (Vec<Order>, OrderBookSideType)) -> (r: OrderBookSide) {
        let (orders, side_type) = parts;
        OrderBookSide { side_type, orders }
    }
}

impl vstd::std_specs::convert::FromSpecImpl<(Vec<Order>, OrderBookSideType)> for OrderBookSide {
    open spec fn obeys_from_spec() -> bool {
        true
    }

    open spec fn from_spec(parts: (Vec<Order>, OrderBookSideType)) -> OrderBookSide {
        OrderBookSide { side_type: parts.1, orders: parts.0 }
    }
}

impl OrderBook {
    /// The ask side, read-only.
    pub fn get_asks(&self) -> (r: &OrderBookSide)
        ensures
            *r == self.asks,
    {
        &self.asks
    }

    /// The bid side, read-only.
    pub fn get_bids(&self) -> (r: &OrderBookSide)
        ensures
            *r == self.bids,
    {
        &self.bids
    }

    /// Sorts the bids in descending order and the asks in ascending order,
    /// keeping exactly the same orders: the best offer of each side lands at
    /// index 0.  Never fails; the result is the one sequence
    /// `sort_orders_spec` states, so sorting an already sorted book leaves
    /// its orders exactly as they stand (idempotent).
    pub fn sort(&mut self)
        requires
            book_wf(*old(self)),
        ensures
            resorted(*final(self), *old(self)),
            book_wf(*final(self)),
            book_oriented(*old(self)) ==> book_oriented(*final(self)),
            final(self).bids.orders@ == sort_orders_spec(old(self).bids.orders@, true),
            final(self).asks.orders@ == sort_orders_spec(old(self).asks.orders@, false),
            book_sorted(*old(self)) ==> final(self).bids.orders@ == old(self).bids.orders@
                && final(self).asks.orders@ == old(self).asks.orders@,
    {
        let ghost pre = *self;
        sort_orders_by_rate(&mut self.bids.orders, true);
        sort_orders_by_rate(&mut self.asks.orders, false);
        proof {
            if book_oriented(pre) {
                lemma_same_multiset_same_members(pre.bids.orders@, self.bids.orders@);
                lemma_same_multiset_same_members(pre.asks.orders@, self.asks.orders@);
            }
            if book_sorted(pre) {
                lemma_sort_spec_of_sorted(pre.bids.orders@, true);
                lemma_sort_spec_of_sorted(pre.asks.orders@, false);
            }
        }
    }

    /// `(best_ask.rate - best_bid.rate) / best_bid.rate`, read from index 0
    /// of each side as it stands (sorting is the caller's responsibility).
    /// Succeeds exactly when the spread is defined: `EmptySide` when either
    /// side is empty, `DivideByZero` when the best bid's rate is exactly
    /// zero, `Overflow` when the result leaves the representable decimal
    /// range.
    pub fn calculate_spread_pct(&self) -> (r: Result<Dec, OrderBookException>)
        requires
            book_wf(*self),
        ensures
            r is Ok <==> spread_defined(*self),
            r == Err::<Dec, OrderBookException>(OrderBookException::EmptySide) <==> (
            self.bids.orders@.len() == 0 || self.asks.orders@.len() == 0),
            r == Err::<Dec, OrderBookException>(OrderBookException::DivideByZero) <==> (
            self.bids.orders@.len() > 0 && self.asks.orders@.len() > 0
                && self.bids.orders@[0].rate.mantissa == 0),
            r == Err::<Dec, OrderBookException>(OrderBookException::Overflow) <==> (
            self.bids.orders@.len() > 0 && self.asks.orders@.len() > 0
                && self.bids.orders@[0].rate.mantissa != 0 && !spread_defined(*self)),
            r is Ok ==> r->Ok_0 == spread_pct_of(*self) && crate::decimal::dec_wf(r->Ok_0),
            r is Err ==> r->Err_0 == OrderBookException::EmptySide || r->Err_0
                == OrderBookException::DivideByZero || r->Err_0 == OrderBookException::Overflow,
    {
        if self.bids.orders.len() == 0 || self.asks.orders.len() == 0 {
            return Err(OrderBookException::EmptySide);
        }
        let best_bid_rate = self.bids.orders[0].rate;
        let best_ask_rate = self.asks.orders[0].rate;
        if best_bid_rate.mantissa == 0 {
            return Err(OrderBookException::DivideByZero);
        }
        let spread = match best_ask_rate.checked_sub(&best_bid_rate) {
            Some(v) => v,
            None => {
                return Err(OrderBookException::Overflow);
            },
        };
        match spread.checked_div(&best_bid_rate) {
            Some(v) => Ok(v),
            None => Err(OrderBookException::Overflow),
        }
    }

    /// Bids when the order's pair matches the book's orientation exactly,
    /// asks when it is the exact reverse, `None` otherwise.
    pub fn determain_order_book_side_type(&self, order: &Order) -> (r: Option<OrderBookSideType>)
        ensures
            r == side_for_order(*self, *order),
    {
        if order.base == self.base && order.counter == self.counter {
            Some(OrderBookSideType::Bids)
        } else if order.base == self.counter && order.counter == self.base {
            Some(OrderBookSideType::Asks)
        } else {
            None
        }
    }

    /// True iff the order belongs to one of the book's sides.
    pub fn is_order_for_order_book(&self, order: &Order) -> (r: bool)
        ensures
            r == side_for_order(*self, *order) is Some,
    {
        self.determain_order_book_side_type(order).is_some()
    }

    /// Admits an order: classifies its side, flips it first when it lands on
    /// the ask side (orders are stored in the book's own orientation),
    /// appends it and fully re-sorts the book.  Succeeds exactly when the
    /// order matches a side and, on the ask side, its flip is defined; on
    /// `InvalidOrder` (the order matches neither side) and on any flip
    /// failure the book is unchanged.
    pub fn add_order(&mut self, order: Order) -> (r: Result<(), OrderBookException>)
        requires
            book_wf(*old(self)),
            order_wf(order),
        ensures
            r is Ok <==> side_for_order(*old(self), order) == Some(OrderBookSideType::Bids) || (
            side_for_order(*old(self), order) == Some(OrderBookSideType::Asks)
                && crate::order::order_flip_defined(order)),
            r == Err::<(), OrderBookException>(OrderBookException::InvalidOrder) <==>
                side_for_order(*old(self), order) is None,
            r == Err::<(), OrderBookException>(OrderBookException::DivideByZero) <==> (
            side_for_order(*old(self), order) == Some(OrderBookSideType::Asks)
                && order.rate.mantissa == 0),
            r == Err::<(), OrderBookException>(OrderBookException::Overflow) ==> side_for_order(
                *old(self),
                order,
            ) == Some(OrderBookSideType::Asks),
            r is Err ==> *final(self) == *old(self),
            r is Err ==> r->Err_0 == OrderBookException::InvalidOrder || r->Err_0
                == OrderBookException::DivideByZero || r->Err_0 == OrderBookException::Overflow,
            r is Ok ==> book_wf(*final(self)) && book_sorted(*final(self)) && final(self).base
                == old(self).base && final(self).counter == old(self).counter,
            (r is Ok && side_for_order(*old(self), order) == Some(OrderBookSideType::Bids))
                ==> final(self).bids.orders@.to_multiset()
                == old(self).bids.orders@.to_multiset().insert(order)
                && final(self).asks.orders@.to_multiset() == old(self).asks.orders@.to_multiset(),
            (r is Ok && side_for_order(*old(self), order) == Some(OrderBookSideType::Asks))
                ==> final(self).asks.orders@.to_multiset()
                == old(self).asks.orders@.to_multiset().insert(order_flipped(order))
                && final(self).bids.orders@.to_multiset() == old(self).bids.orders@.to_multiset(),
            (r is Ok && book_oriented(*old(self))) ==> book_oriented(*final(self)),
    {
        let ghost pre = *self;
        let side = self.determain_order_book_side_type(&order);
        match side {
            Some(OrderBookSideType::Bids) => {
                self.bids.orders.push(order);
            },
            Some(OrderBookSideType::Asks) => {
                if order.rate.mantissa == 0 {
                    return Err(OrderBookException::DivideByZero);
                }
                let mut flipped = order;
                match flipped.flip() {
                    Ok(()) => (),
                    Err(e) => {
                        return Err(e);
                    },
                }
                self.asks.orders.push(flipped);
            },
            None => {
                return Err(OrderBookException::InvalidOrder);
            },
        }
        let ghost mid = *self;
        self.sort();
        proof {
            if book_oriented(pre) {
                assert(book_oriented(mid));
                lemma_same_multiset_same_members(mid.bids.orders@, self.bids.orders@);
                lemma_same_multiset_same_members(mid.asks.orders@, self.asks.orders@);
            }
        }
        Ok(())
    }
}

impl Flip for OrderBook {
    open spec fn flip_wf(&self) -> bool {
        book_wf(*self)
    }

    open spec fn flip_ready(&self) -> bool {
        &&& forall|i: int|
            0 <= i < self.bids.orders@.len() ==> (#[trigger] self.bids.orders@[i]).rate.mantissa
                != 0
        &&& forall|i: int|
            0 <= i < self.asks.orders@.len() ==> (#[trigger] self.asks.orders@[i]).rate.mantissa
                != 0
    }

    open spec fn flip_defined(&self) -> bool {
        &&& forall|i: int|
            0 <= i < self.bids.orders@.len() ==> crate::order::order_flip_defined(
                #[trigger] self.bids.orders@[i],
            )
        &&& forall|i: int|
            0 <= i < self.asks.orders@.len() ==> crate::order::order_flip_defined(
                #[trigger] self.asks.orders@[i],
            )
    }

    /// The flipped book quotes the reverse pair: every order of both sides
    /// flipped, the sides exchanged, base and counter exchanged.
    open spec fn is_flip_of(&self, other: &OrderBook) -> bool {
        &&& self.base == other.counter
        &&& self.counter == other.base
        &&& self.bids.side_type == OrderBookSideType::Bids
        &&& self.asks.side_type == OrderBookSideType::Asks
        &&& self.bids.orders@ == other.asks.orders@.map_values(|o: Order| order_flipped(o))
        &&& self.asks.orders@ == other.bids.orders@.map_values(|o: Order| order_flipped(o))
    }

    fn flip(&mut self) -> (r: Result<(), OrderBookException>) {
        let mut z: usize = 0;
        while z < self.bids.orders.len()
            invariant
                *self == *old(self),
                z <= self.bids.orders@.len(),
                forall|t: int| 0 <= t < z ==> (#[trigger] self.bids.orders@[t]).rate.mantissa != 0,
            decreases self.bids.orders@.len() - z,
        {
            if self.bids.orders[z].rate.mantissa == 0 {
                return Err(OrderBookException::DivideByZero);
            }
            z = z + 1;
        }
        let mut w: usize = 0;
        while w < self.asks.orders.len()
            invariant
                *self == *old(self),
                w <= self.asks.orders@.len(),
                forall|t: int| 0 <= t < self.bids.orders@.len() ==> (
                #[trigger] self.bids.orders@[t]).rate.mantissa != 0,
                forall|t: int| 0 <= t < w ==> (#[trigger] self.asks.orders@[t]).rate.mantissa != 0,
            decreases self.asks.orders@.len() - w,
        {
            if self.asks.orders[w].rate.mantissa == 0 {
                return Err(OrderBookException::DivideByZero);
            }
            w = w + 1;
        }
        let mut new_bids: Vec<Order> = Vec::new();
        let mut i: usize = 0;
        while i < self.asks.orders.len()
            invariant
                *self == *old(self),
                book_wf(*self),
                old(self).flip_ready(),
                i <= self.asks.orders@.len(),
                new_bids@ =~= self.asks.orders@.subrange(0, i as int).map_values(
                    |o: Order| order_flipped(o),
                ),
                forall|t: int|
                    0 <= t < i ==> crate::order::order_flip_defined(
                        #[trigger] self.asks.orders@[t],
                    ),
                forall|t: int| 0 <= t < new_bids@.len() ==> order_wf(#[trigger] new_bids@[t]),
            decreases self.asks.orders@.len() - i,
        {
            let mut o = self.asks.orders[i].clone();
            match o.flip() {
                Ok(()) => new_bids.push(o),
                Err(e) => {
                    return Err(e);
                },
            }
            proof {
                assert(new_bids@ =~= self.asks.orders@.subrange(0, i + 1).map_values(
                    |o: Order| order_flipped(o),
                ));
            }
            i = i + 1;
        }
        let mut new_asks: Vec<Order> = Vec::new();
        let mut j: usize = 0;
        while j < self.bids.orders.len()
            invariant
                *self == *old(self),
                book_wf(*self),
                old(self).flip_ready(),
                j <= self.bids.orders@.len(),
                new_asks@ =~= self.bids.orders@.subrange(0, j as int).map_values(
                    |o: Order| order_flipped(o),
                ),
                forall|t: int|
                    0 <= t < self.asks.orders@.len() ==> crate::order::order_flip_defined(
                        #[trigger] self.asks.orders@[t],
                    ),
                forall|t: int|
                    0 <= t < j ==> crate::order::order_flip_defined(
                        #[trigger] self.bids.orders@[t],
                    ),
                forall|t: int| 0 <= t < new_asks@.len() ==> order_wf(#[trigger] new_asks@[t]),
            decreases self.bids.orders@.len() - j,
        {
            let mut o = self.bids.orders[j].clone();
            match o.flip() {
                Ok(()) => new_asks.push(o),
                Err(e) => {
                    return Err(e);
                },
            }
            proof {
                assert(new_asks@ =~= self.bids.orders@.subrange(0, j + 1).map_values(
                    |o: Order| order_flipped(o),
                ));
            }
            j = j + 1;
        }
        core::mem::swap(&mut self.base, &mut self.counter);
        self.bids = OrderBookSide { side_type: OrderBookSideType::Bids, orders: new_bids };
        self.asks = OrderBookSide { side_type: OrderBookSideType::Asks, orders: new_asks };
        proof {
            assert(self.bids.orders@ =~= old(self).asks.orders@.map_values(
                |o: Order| order_flipped(o),
            ));
            assert(self.asks.orders@ =~= old(self).bids.orders@.map_values(
                |o: Order| order_flipped(o),
            ));
        }
        Ok(())
    }
}

impl IsLiquid for OrderBook {
    open spec fn liquidity_wf(&self) -> bool {
        book_wf(*self)
    }

    open spec fn has_quotes(&self) -> bool {
        self.bids.orders@.len() > 0 && self.asks.orders@.len() > 0
    }

    open spec fn divisor_ok(&self) -> bool {
        self.bids.orders@[0].rate.mantissa != 0
    }

    open spec fn spread_value(&self) -> Dec {
        spread_pct_of(*self)
    }

    open spec fn spread_computable(&self) -> bool {
        &&& sub_of(self.asks.orders@[0].rate, self.bids.orders@[0].rate) is Some
        &&& div_of(
            sub_of(self.asks.orders@[0].rate, self.bids.orders@[0].rate)->0,
            self.bids.orders@[0].rate,
        ) is Some
    }

    fn is_liquid(&self, liquidity_spread: &Dec) -> (r: Result<bool, OrderBookException>) {
        let spread = match self.calculate_spread_pct() {
            Ok(v) => v,
            Err(e) => {
                return Err(e);
            },
        };
        Ok(spread.le(liquidity_spread))
    }
}

} // verus!
