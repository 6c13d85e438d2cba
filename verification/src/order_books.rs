//! A collection of order books sharing one liquidity threshold, and the
//! traits the book types implement: reorientation (`Flip`) and the liquidity
//! judgement (`IsLiquid`).
use vstd::prelude::*;

use crate::decimal::{dec_le, dec_wf, Dec};
use crate::exceptions::OrderBookException;
use crate::order_book::{
    book_equiv, book_oriented, book_wf, resorted, spread_defined, spread_pct_of, OrderBook,
};

verus! {

/// Every order book of the collection, plus the one liquidity threshold they
/// are all judged against.
#[derive(Debug)]
pub struct OrderBooks {
    pub order_books: Vec<OrderBook>,
    pub liquidity_spread: Dec,
}

/// Every contained book and the threshold are representable.
pub open spec fn books_wf(obs: OrderBooks) -> bool {
    &&& dec_wf(obs.liquidity_spread)
    &&& forall|i: int|
        0 <= i < obs.order_books@.len() ==> book_wf(#[trigger] obs.order_books@[i])
}

/// A book is liquid for this collection: its spread lies within the shared
/// threshold.
pub open spec fn liquid_in(obs: OrderBooks, b: OrderBook) -> bool {
    dec_le(spread_pct_of(b), obs.liquidity_spread)
}

/// A book has a quote on both sides.
pub open spec fn book_has_quotes(b: OrderBook) -> bool {
    b.bids.orders@.len() > 0 && b.asks.orders@.len() > 0
}

/// The best bid's rate is not zero, so the spread is defined.
pub open spec fn book_divisor_ok(b: OrderBook) -> bool {
    b.bids.orders@[0].rate.mantissa != 0
}

impl Clone for OrderBooks {
    fn clone(&self) -> (r: OrderBooks)
        ensures
            r.liquidity_spread == self.liquidity_spread,
            r.order_books@.len() == self.order_books@.len(),
            forall|i: int|
                0 <= i < self.order_books@.len() ==> book_equiv(
                    #[trigger] r.order_books@[i],
                    self.order_books@[i],
                ),
    {
        let mut books: Vec<OrderBook> = Vec::new();
        let mut i: usize = 0;
        while i < self.order_books.len()
            invariant
                i <= self.order_books@.len(),
                books@.len() == i,
                forall|j: int|
                    0 <= j < i as int ==> book_equiv(
                        #[trigger] books@[j],
                        self.order_books@[j],
                    ),
            decreases self.order_books@.len() - i,
        {
            books.push(self.order_books[i].clone());
            i = i + 1;
        }
        OrderBooks { order_books: books, liquidity_spread: self.liquidity_spread }
    }
}

impl OrderBooks {
    /// Re-sorts every contained order book in place: afterwards each book
    /// holds exactly the orders it held before, bids descending and asks
    /// ascending.
    pub fn sort(&mut self)
        requires
            books_wf(*old(self)),
        ensures
            final(self).liquidity_spread == old(self).liquidity_spread,
            final(self).order_books@.len() == old(self).order_books@.len(),
            forall|i: int|
                0 <= i < old(self).order_books@.len() ==> resorted(
                    #[trigger] final(self).order_books@[i],
                    old(self).order_books@[i],
                ),
            forall|i: int|
                0 <= i < old(self).order_books@.len() && book_oriented(old(self).order_books@[i])
                    ==> book_oriented(#[trigger] final(self).order_books@[i]),
            forall|i: int|
                0 <= i < old(self).order_books@.len()
                    ==> (#[trigger] final(self).order_books@[i]).bids.orders@
                    == crate::order_book::sort_orders_spec(
                    old(self).order_books@[i].bids.orders@,
                    true,
                ) && final(self).order_books@[i].asks.orders@
                    == crate::order_book::sort_orders_spec(
                    old(self).order_books@[i].asks.orders@,
                    false,
                ),
            books_wf(*final(self)),
    {
        let n = self.order_books.len();
        let mut i: usize = 0;
        while i < n
            invariant
                n == self.order_books@.len(),
                n == old(self).order_books@.len(),
                i <= n,
                self.liquidity_spread == old(self).liquidity_spread,
                books_wf(*self),
                forall|j: int|
                    0 <= j < i as int ==> resorted(
                        #[trigger] self.order_books@[j],
                        old(self).order_books@[j],
                    ),
                forall|j: int|
                    0 <= j < i as int && book_oriented(old(self).order_books@[j])
                        ==> book_oriented(#[trigger] self.order_books@[j]),
                forall|j: int|
                    0 <= j < i as int ==> (#[trigger] self.order_books@[j]).bids.orders@
                        == crate::order_book::sort_orders_spec(
                        old(self).order_books@[j].bids.orders@,
                        true,
                    ) && self.order_books@[j].asks.orders@
                        == crate::order_book::sort_orders_spec(
                        old(self).order_books@[j].asks.orders@,
                        false,
                    ),
                forall|j: int|
                    i as int <= j < n ==> #[trigger] self.order_books@[j] == old(
                        self,
                    ).order_books@[j],
            decreases n - i,
        {
            let book = &mut self.order_books[i];
            book.sort();
            i = i + 1;
        }
    }

    /// The books whose spread lies within the shared threshold, in their
    /// original order.  Each book is read as it stands: callers sort first.
    /// The first book whose spread cannot be computed aborts the question
    /// with that book's error.
    pub fn get_liquid_order_books(&self) -> (r: Result<Vec<&OrderBook>, OrderBookException>)
        requires
            books_wf(*self),
        ensures
            r is Ok <==> forall|i: int|
                0 <= i < self.order_books@.len() ==> spread_defined(
                    #[trigger] self.order_books@[i],
                ),
            r is Ok ==> r->Ok_0@.map_values(|b: &OrderBook| *b) == self.order_books@.filter(
                |b: OrderBook| liquid_in(*self, b),
            ),
            r is Ok ==> forall|i: int|
                0 <= i < self.order_books@.len() ==> book_has_quotes(
                    #[trigger] self.order_books@[i],
                ) && book_divisor_ok(self.order_books@[i]),
            r == Err::<Vec<&OrderBook>, OrderBookException>(OrderBookException::EmptySide)
                ==> exists|i: int|
                0 <= i < self.order_books@.len() && !book_has_quotes(
                    #[trigger] self.order_books@[i],
                ),
            r == Err::<Vec<&OrderBook>, OrderBookException>(OrderBookException::DivideByZero)
                ==> exists|i: int|
                0 <= i < self.order_books@.len() && !book_divisor_ok(
                    #[trigger] self.order_books@[i],
                ),
            r is Err ==> r->Err_0 == OrderBookException::EmptySide || r->Err_0
                == OrderBookException::DivideByZero || r->Err_0 == OrderBookException::Overflow,
    {
        let ghost pred = |b: OrderBook| liquid_in(*self, b);
        let mut liquid_order_books: Vec<&OrderBook> = Vec::new();
        let mut i: usize = 0;
        while i < self.order_books.len()
            invariant
                books_wf(*self),
                i <= self.order_books@.len(),
                pred == (|b: OrderBook| liquid_in(*self, b)),
                liquid_order_books@.map_values(|b: &OrderBook| *b) == self.order_books@.subrange(
                    0,
                    i as int,
                ).filter(pred),
                forall|j: int|
                    0 <= j < i as int ==> spread_defined(#[trigger] self.order_books@[j]),
                forall|j: int|
                    0 <= j < i as int ==> book_has_quotes(#[trigger] self.order_books@[j])
                        && book_divisor_ok(self.order_books@[j]),
            decreases self.order_books@.len() - i,
        {
            let book = &self.order_books[i];
            let liquid = match book.is_liquid(&self.liquidity_spread) {
                Ok(v) => v,
                Err(e) => {
                    return Err(e);
                },
            };
            if liquid {
                liquid_order_books.push(book);
            }
            proof {
                lemma_filter_take_step(self.order_books@, i as int, pred);
                assert(liquid_order_books@.map_values(|b: &OrderBook| *b) =~= self.order_books@
                    .subrange(0, i + 1).filter(pred));
            }
            i = i + 1;
        }
        proof {
            assert(self.order_books@.subrange(0, self.order_books@.len() as int) =~= self
                .order_books@);
        }
        Ok(liquid_order_books)
    }

    /// The books whose spread lies beyond the shared threshold, in their
    /// original order: the complement of `get_liquid_order_books`.
    pub fn get_illiquid_order_books(&self) -> (r: Result<Vec<&OrderBook>, OrderBookException>)
        requires
            books_wf(*self),
        ensures
            r is Ok <==> forall|i: int|
                0 <= i < self.order_books@.len() ==> spread_defined(
                    #[trigger] self.order_books@[i],
                ),
            r is Ok ==> r->Ok_0@.map_values(|b: &OrderBook| *b) == self.order_books@.filter(
                |b: OrderBook| !liquid_in(*self, b),
            ),
            r is Ok ==> forall|i: int|
                0 <= i < self.order_books@.len() ==> book_has_quotes(
                    #[trigger] self.order_books@[i],
                ) && book_divisor_ok(self.order_books@[i]),
            r == Err::<Vec<&OrderBook>, OrderBookException>(OrderBookException::EmptySide)
                ==> exists|i: int|
                0 <= i < self.order_books@.len() && !book_has_quotes(
                    #[trigger] self.order_books@[i],
                ),
            r == Err::<Vec<&OrderBook>, OrderBookException>(OrderBookException::DivideByZero)
                ==> exists|i: int|
                0 <= i < self.order_books@.len() && !book_divisor_ok(
                    #[trigger] self.order_books@[i],
                ),
            r is Err ==> r->Err_0 == OrderBookException::EmptySide || r->Err_0
                == OrderBookException::DivideByZero || r->Err_0 == OrderBookException::Overflow,
    {
        let ghost pred = |b: OrderBook| !liquid_in(*self, b);
        let mut illiquid_order_books: Vec<&OrderBook> = Vec::new();
        let mut i: usize = 0;
        while i < self.order_books.len()
            invariant
                books_wf(*self),
                i <= self.order_books@.len(),
                pred == (|b: OrderBook| !liquid_in(*self, b)),
                illiquid_order_books@.map_values(|b: &OrderBook| *b) == self.order_books@.subrange(
                    0,
                    i as int,
                ).filter(pred),
                forall|j: int|
                    0 <= j < i as int ==> spread_defined(#[trigger] self.order_books@[j]),
                forall|j: int|
                    0 <= j < i as int ==> book_has_quotes(#[trigger] self.order_books@[j])
                        && book_divisor_ok(self.order_books@[j]),
            decreases self.order_books@.len() - i,
        {
            let book = &self.order_books[i];
            let liquid = match book.is_liquid(&self.liquidity_spread) {
                Ok(v) => v,
                Err(e) => {
                    return Err(e);
                },
            };
            if !liquid {
                illiquid_order_books.push(book);
            }
            proof {
                lemma_filter_take_step(self.order_books@, i as int, pred);
                assert(illiquid_order_books@.map_values(|b: &OrderBook| *b) =~= self.order_books@
                    .subrange(0, i + 1).filter(pred));
            }
            i = i + 1;
        }
        proof {
            assert(self.order_books@.subrange(0, self.order_books@.len() as int) =~= self
                .order_books@);
        }
        Ok(illiquid_order_books)
    }
}

/// One step of filtering a growing prefix: the filtered prefix grows by the
/// next element exactly when the predicate holds of it.
proof fn lemma_filter_take_step(s: Seq<OrderBook>, i: int, pred: spec_fn(OrderBook) -> bool)
    requires
        0 <= i < s.len(),
    ensures
        s.subrange(0, i + 1).filter(pred) == if pred(s[i]) {
            s.subrange(0, i).filter(pred).push(s[i])
        } else {
            s.subrange(0, i).filter(pred)
        },
{
    reveal(Seq::filter);
    let sub1 = s.subrange(0, i + 1);
    assert(sub1.drop_last() =~= s.subrange(0, i));
    assert(sub1.last() == s[i]);
    if pred(s[i]) {
        assert(sub1.filter(pred) =~= s.subrange(0, i).filter(pred).push(s[i]));
    } else {
        assert(sub1.filter(pred) =~= s.subrange(0, i).filter(pred));
    }
}

/// Reorienting a value so its base and counter legs exchange and its rate
/// inverts.
pub trait Flip: Sized {
    /// What the receiver must satisfy before a flip may be attempted.
    spec fn flip_wf(&self) -> bool;

    /// True iff no rate involved is exactly zero, so the inversion is
    /// mathematically defined.
    spec fn flip_ready(&self) -> bool;

    /// True iff the flip succeeds: no rate is zero and no flipped value
    /// leaves the representable decimal range.
    spec fn flip_defined(&self) -> bool;

    /// True iff `self` is the flipped image of `other`.
    spec fn is_flip_of(&self, other: &Self) -> bool;

    /// Reorients the receiver in place.  Succeeds exactly when the flip is
    /// defined; a zero rate is reported as `DivideByZero` (exactly then), a
    /// value leaving the representable decimal range as `Overflow`; on any
    /// error the receiver is left unchanged.
    fn flip(&mut self) -> (r: Result<(), OrderBookException>)
        requires
            old(self).flip_wf(),
        ensures
            r is Ok <==> old(self).flip_defined(),
            r is Ok ==> final(self).is_flip_of(old(self)) && old(self).flip_ready()
                && final(self).flip_wf(),
            r is Err ==> *final(self) == *old(self),
            r == Err::<(), OrderBookException>(OrderBookException::DivideByZero)
                <==> !old(self).flip_ready(),
            r is Err ==> r->Err_0 == OrderBookException::DivideByZero || r->Err_0
                == OrderBookException::Overflow,
    ;
}

/// Judging whether a market is liquid: its spread lies within a threshold.
pub trait IsLiquid: Sized {
    /// What the receiver must satisfy before the question may be asked.
    spec fn liquidity_wf(&self) -> bool;

    /// Both sides hold at least one quote.
    spec fn has_quotes(&self) -> bool;

    /// The divisor of the spread computation is not zero.
    spec fn divisor_ok(&self) -> bool;

    /// The relative spread the judgement compares against the threshold.
    spec fn spread_value(&self) -> Dec;

    /// The spread's arithmetic stays within the representable decimal
    /// range.
    spec fn spread_computable(&self) -> bool;

    /// True iff the spread is within `liquidity_spread`.  Succeeds exactly
    /// when both sides are quoted, the divisor is not zero and the
    /// arithmetic is representable.  An empty side is `EmptySide`, a zero
    /// best-bid rate is `DivideByZero`, and a spread leaving the
    /// representable decimal range is `Overflow`.
    fn is_liquid(&self, liquidity_spread: &Dec) -> (r: Result<bool, OrderBookException>)
        requires
            self.liquidity_wf(),
            dec_wf(*liquidity_spread),
        ensures
            r is Ok <==> self.has_quotes() && self.divisor_ok() && self.spread_computable(),
            r is Ok ==> r->Ok_0 == dec_le(self.spread_value(), *liquidity_spread),
            r == Err::<bool, OrderBookException>(OrderBookException::EmptySide) <==> !self.has_quotes(),
            r == Err::<bool, OrderBookException>(OrderBookException::DivideByZero) <==> (
            self.has_quotes() && !self.divisor_ok()),
            r is Err ==> r->Err_0 == OrderBookException::EmptySide || r->Err_0
                == OrderBookException::DivideByZero || r->Err_0 == OrderBookException::Overflow,
    ;
}

} // verus!
