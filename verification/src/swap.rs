//! Two-leg swap arbitrage: pairing counter-parties across two order books by
//! currency-pair alignment, and judging whether the round trip returns more
//! of the starting currency than it spends, net of both legs' transfer fees.
use vstd::prelude::*;

use crate::currency::{currency_wf, same_code, Currency};
use crate::decimal::{dec_lt, dec_wf};
use crate::exceptions::SwapArbitrageException;
use crate::order::{
    counter_quantity_after_fee, counter_quantity_defined, order_flip_defined, order_flipped,
    order_wf, Order,
};
use crate::order_book::{
    book_equiv, book_sorted, book_wf, lemma_sort_spec_len, resorted, sort_orders_spec, OrderBook,
};
use crate::order_books::{books_wf, Flip, OrderBooks};

verus! {

/// Whether a value of this type pays for itself.
pub trait IsProfitable: Sized {
    /// What the receiver must satisfy before the question may be asked.
    spec fn profit_wf(&self) -> bool;

    /// The judgement's arithmetic stays within the representable decimal
    /// range, so an answer is owed.
    spec fn profit_defined(&self) -> bool;

    /// The judgement itself, stated over the receiver's decimals.
    spec fn profitable(&self) -> bool;

    /// Decides `profitable`.  Succeeds exactly when the judgement is
    /// defined; `Overflow` when a fee-adjusted quantity leaves the
    /// representable decimal range.
    fn is_profitable(&self) -> (r: Result<bool, SwapArbitrageException>)
        requires
            self.profit_wf(),
        ensures
            r is Ok <==> self.profit_defined(),
            r is Ok ==> r->Ok_0 == self.profitable(),
            r is Err ==> r->Err_0 == SwapArbitrageException::Overflow,
    ;
}

/// A matched pair of legs between two order books: sell the starting
/// currency through `sell_order`, buy it back through `buy_order`.
/// Transient: built and judged per evaluation, never stored.
#[derive(Debug)]
pub struct SwapTrade {
    pub sell_order: Order,
    pub buy_order: Order,
    pub starting_currency: Currency,
}

/// How two order books line up for a trading currency.  The pair is either
/// aligned the same way round or crosswise, and the trading currency is
/// either the first book's base or its counter; anything else cannot be
/// matched.
#[derive(Debug, Clone, Copy, PartialEq, Eq, Structural)]
pub enum Alignment {
    SameAlignedBaseTrading,
    SameAlignedCounterTrading,
    CrossAlignedBaseTrading,
    CrossAlignedCounterTrading,
}

/// The alignment of two books for a trading currency, judged on currency
/// codes alone (issuers are ignored), in the order the cases are tried.
pub open spec fn align_of(sell_book: OrderBook, buy_book: OrderBook, tc: Seq<char>) -> Option<
    Alignment,
> {
    if same_code(sell_book.base, buy_book.base) && same_code(sell_book.counter, buy_book.counter)
        && sell_book.base.currency_code@ == tc && buy_book.base.currency_code@ == tc {
        Some(Alignment::SameAlignedBaseTrading)
    } else if same_code(sell_book.base, buy_book.base) && same_code(
        sell_book.counter,
        buy_book.counter,
    ) && sell_book.counter.currency_code@ == tc && buy_book.counter.currency_code@ == tc {
        Some(Alignment::SameAlignedCounterTrading)
    } else if same_code(sell_book.base, buy_book.counter) && same_code(
        sell_book.counter,
        buy_book.base,
    ) && sell_book.base.currency_code@ == tc && buy_book.counter.currency_code@ == tc {
        Some(Alignment::CrossAlignedBaseTrading)
    } else if same_code(sell_book.base, buy_book.counter) && same_code(
        sell_book.counter,
        buy_book.base,
    ) && sell_book.counter.currency_code@ == tc && buy_book.base.currency_code@ == tc {
        Some(Alignment::CrossAlignedCounterTrading)
    } else {
        None
    }
}

/// The sides an alignment consumes both hold a best order.
pub open spec fn sides_present(a: Alignment, sell_book: OrderBook, buy_book: OrderBook) -> bool {
    match a {
        Alignment::SameAlignedBaseTrading => sell_book.bids.orders@.len() > 0
            && buy_book.asks.orders@.len() > 0,
        Alignment::SameAlignedCounterTrading => sell_book.asks.orders@.len() > 0
            && buy_book.bids.orders@.len() > 0,
        Alignment::CrossAlignedBaseTrading => sell_book.bids.orders@.len() > 0
            && buy_book.bids.orders@.len() > 0,
        Alignment::CrossAlignedCounterTrading => sell_book.asks.orders@.len() > 0
            && buy_book.asks.orders@.len() > 0,
    }
}

/// A best order the alignment must flip carries a rate of exactly zero, so
/// the flip is undefined.
pub open spec fn flip_source_zero(a: Alignment, sell_book: OrderBook, buy_book: OrderBook) -> bool {
    match a {
        Alignment::SameAlignedBaseTrading => buy_book.asks.orders@[0].rate.mantissa == 0,
        Alignment::SameAlignedCounterTrading => sell_book.asks.orders@[0].rate.mantissa == 0,
        Alignment::CrossAlignedBaseTrading => false,
        Alignment::CrossAlignedCounterTrading => sell_book.asks.orders@[0].rate.mantissa == 0
            || buy_book.asks.orders@[0].rate.mantissa == 0,
    }
}

/// Every flip the alignment needs is defined: no zero rate and no value
/// leaving the representable decimal range.
pub open spec fn combo_defined(a: Alignment, sell_book: OrderBook, buy_book: OrderBook) -> bool {
    match a {
        Alignment::SameAlignedBaseTrading => order_flip_defined(buy_book.asks.orders@[0]),
        Alignment::SameAlignedCounterTrading => order_flip_defined(sell_book.asks.orders@[0]),
        Alignment::CrossAlignedBaseTrading => true,
        Alignment::CrossAlignedCounterTrading => order_flip_defined(sell_book.asks.orders@[0])
            && order_flip_defined(buy_book.asks.orders@[0]),
    }
}

/// The trade an alignment extracts from the best orders of two sorted books:
/// which legs are consumed, which are flipped first, and which currency the
/// round trip starts from.
pub open spec fn trade_for(a: Alignment, sell_book: OrderBook, buy_book: OrderBook) -> SwapTrade {
    match a {
        Alignment::SameAlignedBaseTrading => SwapTrade {
            sell_order: sell_book.bids.orders@[0],
            buy_order: order_flipped(buy_book.asks.orders@[0]),
            starting_currency: sell_book.base,
        },
        Alignment::SameAlignedCounterTrading => SwapTrade {
            sell_order: order_flipped(sell_book.asks.orders@[0]),
            buy_order: buy_book.bids.orders@[0],
            starting_currency: sell_book.counter,
        },
        Alignment::CrossAlignedBaseTrading => SwapTrade {
            sell_order: sell_book.bids.orders@[0],
            buy_order: buy_book.bids.orders@[0],
            starting_currency: sell_book.base,
        },
        Alignment::CrossAlignedCounterTrading => SwapTrade {
            sell_order: order_flipped(sell_book.asks.orders@[0]),
            buy_order: order_flipped(buy_book.asks.orders@[0]),
            starting_currency: sell_book.counter,
        },
    }
}

/// Every decimal the trade carries is representable.
pub open spec fn trade_wf(t: SwapTrade) -> bool {
    &&& order_wf(t.sell_order)
    &&& order_wf(t.buy_order)
    &&& currency_wf(t.starting_currency)
}

/// The buy leg with its quantity clamped to what the sell leg yields: one
/// cannot buy back with more than the sell leg returned.
pub open spec fn clamped_buy(t: SwapTrade) -> Order {
    let sell_out = counter_quantity_after_fee(t.sell_order);
    if dec_lt(sell_out, t.buy_order.base_quantity) {
        Order {
            base: t.buy_order.base,
            counter: t.buy_order.counter,
            base_quantity: sell_out,
            rate: t.buy_order.rate,
        }
    } else {
        t.buy_order
    }
}

/// The round trip returns strictly more of the starting currency than it
/// spends: what the sell leg yields after fees is strictly less than what
/// the clamped buy leg yields after fees.
pub open spec fn trade_profitable(t: SwapTrade) -> bool {
    dec_lt(counter_quantity_after_fee(t.sell_order), counter_quantity_after_fee(clamped_buy(t)))
}

impl Clone for SwapTrade {
    fn clone(&self) -> (r: SwapTrade)
        ensures
            r == *self,
    {
        SwapTrade {
            sell_order: self.sell_order.clone(),
            buy_order: self.buy_order.clone(),
            starting_currency: self.starting_currency.clone(),
        }
    }
}

/// Classifies two order books against a trading currency into the alignment
/// their best orders would be matched under, trying the cases in order.
pub fn classify_alignment(
    sell_order_book: &OrderBook,
    buy_order_book: &OrderBook,
    trading_currency: &String,
) -> (r: Option<Alignment>)
    ensures
        r == align_of(*sell_order_book, *buy_order_book, trading_currency@),
{
    let same_aligned = sell_order_book.base.is_same_currency(&buy_order_book.base)
        && sell_order_book.counter.is_same_currency(&buy_order_book.counter);
    let cross_aligned = sell_order_book.base.is_same_currency(&buy_order_book.counter)
        && sell_order_book.counter.is_same_currency(&buy_order_book.base);
    if same_aligned && sell_order_book.base.currency_code == *trading_currency
        && buy_order_book.base.currency_code == *trading_currency {
        Some(Alignment::SameAlignedBaseTrading)
    } else if same_aligned && sell_order_book.counter.currency_code == *trading_currency
        && buy_order_book.counter.currency_code == *trading_currency {
        Some(Alignment::SameAlignedCounterTrading)
    } else if cross_aligned && sell_order_book.base.currency_code == *trading_currency
        && buy_order_book.counter.currency_code == *trading_currency {
        Some(Alignment::CrossAlignedBaseTrading)
    } else if cross_aligned && sell_order_book.counter.currency_code == *trading_currency
        && buy_order_book.base.currency_code == *trading_currency {
        Some(Alignment::CrossAlignedCounterTrading)
    } else {
        None
    }
}

impl SwapTrade {
    /// Matches the best orders of two order books into a swap trade for the
    /// given trading currency.  Both books are defensively re-sorted first,
    /// whatever else happens.  Succeeds exactly when the pair aligns, the
    /// needed best orders exist, and every needed flip is defined.  A pair
    /// that cannot be aligned is `InvalidOrderBookCombo`; an aligned pair
    /// missing a needed best order is `EmptySide`; a leg that must be
    /// flipped but quotes a zero rate is `DivideByZero`; a flip leaving the
    /// representable range is `Overflow`.
    pub fn try_from(
        sell_order_book: &mut OrderBook,
        buy_order_book: &mut OrderBook,
        trading_currency: &String,
    ) -> (r: Result<SwapTrade, SwapArbitrageException>)
        requires
            book_wf(*old(sell_order_book)),
            book_wf(*old(buy_order_book)),
        ensures
            resorted(*final(sell_order_book), *old(sell_order_book)),
            resorted(*final(buy_order_book), *old(buy_order_book)),
            book_wf(*final(sell_order_book)),
            book_wf(*final(buy_order_book)),
            final(sell_order_book).bids.orders@ == sort_orders_spec(
                old(sell_order_book).bids.orders@,
                true,
            ),
            final(sell_order_book).asks.orders@ == sort_orders_spec(
                old(sell_order_book).asks.orders@,
                false,
            ),
            final(buy_order_book).bids.orders@ == sort_orders_spec(
                old(buy_order_book).bids.orders@,
                true,
            ),
            final(buy_order_book).asks.orders@ == sort_orders_spec(
                old(buy_order_book).asks.orders@,
                false,
            ),
            book_sorted(*old(sell_order_book))
                ==> final(sell_order_book).bids.orders@ == old(sell_order_book).bids.orders@
                && final(sell_order_book).asks.orders@ == old(sell_order_book).asks.orders@,
            book_sorted(*old(buy_order_book))
                ==> final(buy_order_book).bids.orders@ == old(buy_order_book).bids.orders@
                && final(buy_order_book).asks.orders@ == old(buy_order_book).asks.orders@,
            ({
                let align = align_of(*old(sell_order_book), *old(buy_order_book), trading_currency@);
                &&& (r is Ok <==> align is Some && sides_present(
                    align->0,
                    *final(sell_order_book),
                    *final(buy_order_book),
                ) && combo_defined(align->0, *final(sell_order_book), *final(buy_order_book)))
                &&& (r == Err::<SwapTrade, SwapArbitrageException>(
                    SwapArbitrageException::InvalidOrderBookCombo,
                ) <==> align is None)
                &&& (r == Err::<SwapTrade, SwapArbitrageException>(SwapArbitrageException::EmptySide)
                    <==> align is Some && !sides_present(
                    align->0,
                    *final(sell_order_book),
                    *final(buy_order_book),
                ))
                &&& (r == Err::<SwapTrade, SwapArbitrageException>(
                    SwapArbitrageException::DivideByZero,
                ) <==> align is Some && sides_present(
                    align->0,
                    *final(sell_order_book),
                    *final(buy_order_book),
                ) && flip_source_zero(align->0, *final(sell_order_book), *final(buy_order_book)))
                &&& (r == Err::<SwapTrade, SwapArbitrageException>(SwapArbitrageException::Overflow)
                    <==> align is Some && sides_present(
                    align->0,
                    *final(sell_order_book),
                    *final(buy_order_book),
                ) && !flip_source_zero(align->0, *final(sell_order_book), *final(buy_order_book))
                    && !combo_defined(align->0, *final(sell_order_book), *final(buy_order_book)))
                &&& (r is Ok ==> align is Some && r->Ok_0 == trade_for(
                    align->0,
                    *final(sell_order_book),
                    *final(buy_order_book),
                ) && trade_wf(r->Ok_0))
                &&& (r is Err ==> r->Err_0 == SwapArbitrageException::InvalidOrderBookCombo
                    || r->Err_0 == SwapArbitrageException::EmptySide || r->Err_0
                    == SwapArbitrageException::DivideByZero || r->Err_0
                    == SwapArbitrageException::Overflow)
            }),
    {
        sell_order_book.sort();
        buy_order_book.sort();
        let alignment = classify_alignment(sell_order_book, buy_order_book, trading_currency);
        match alignment {
            None => Err(SwapArbitrageException::InvalidOrderBookCombo),
            Some(Alignment::SameAlignedBaseTrading) => {
                if sell_order_book.bids.orders.len() == 0 || buy_order_book.asks.orders.len()
                    == 0 {
                    return Err(SwapArbitrageException::EmptySide);
                }
                let sell_order = sell_order_book.bids.orders[0].clone();
                let mut buy_order = buy_order_book.asks.orders[0].clone();
                if buy_order.rate.mantissa == 0 {
                    return Err(SwapArbitrageException::DivideByZero);
                }
                match buy_order.flip() {
                    Ok(()) => (),
                    Err(_) => {
                        return Err(SwapArbitrageException::Overflow);
                    },
                }
                Ok(
                    SwapTrade {
                        sell_order,
                        buy_order,
                        starting_currency: sell_order_book.base.clone(),
                    },
                )
            },
            Some(Alignment::SameAlignedCounterTrading) => {
                if sell_order_book.asks.orders.len() == 0 || buy_order_book.bids.orders.len()
                    == 0 {
                    return Err(SwapArbitrageException::EmptySide);
                }
                let mut sell_order = sell_order_book.asks.orders[0].clone();
                let buy_order = buy_order_book.bids.orders[0].clone();
                if sell_order.rate.mantissa == 0 {
                    return Err(SwapArbitrageException::DivideByZero);
                }
                match sell_order.flip() {
                    Ok(()) => (),
                    Err(_) => {
                        return Err(SwapArbitrageException::Overflow);
                    },
                }
                Ok(
                    SwapTrade {
                        sell_order,
                        buy_order,
                        starting_currency: sell_order_book.counter.clone(),
                    },
                )
            },
            Some(Alignment::CrossAlignedBaseTrading) => {
                if sell_order_book.bids.orders.len() == 0 || buy_order_book.bids.orders.len()
                    == 0 {
                    return Err(SwapArbitrageException::EmptySide);
                }
                Ok(
                    SwapTrade {
                        sell_order: sell_order_book.bids.orders[0].clone(),
                        buy_order: buy_order_book.bids.orders[0].clone(),
                        starting_currency: sell_order_book.base.clone(),
                    },
                )
            },
            Some(Alignment::CrossAlignedCounterTrading) => {
                if sell_order_book.asks.orders.len() == 0 || buy_order_book.asks.orders.len()
                    == 0 {
                    return Err(SwapArbitrageException::EmptySide);
                }
                let mut sell_order = sell_order_book.asks.orders[0].clone();
                let mut buy_order = buy_order_book.asks.orders[0].clone();
                if sell_order.rate.mantissa == 0 || buy_order.rate.mantissa == 0 {
                    return Err(SwapArbitrageException::DivideByZero);
                }
                match sell_order.flip() {
                    Ok(()) => (),
                    Err(_) => {
                        return Err(SwapArbitrageException::Overflow);
                    },
                }
                match buy_order.flip() {
                    Ok(()) => (),
                    Err(_) => {
                        return Err(SwapArbitrageException::Overflow);
                    },
                }
                Ok(
                    SwapTrade {
                        sell_order,
                        buy_order,
                        starting_currency: sell_order_book.counter.clone(),
                    },
                )
            },
        }
    }
}

impl IsProfitable for SwapTrade {
    open spec fn profit_wf(&self) -> bool {
        trade_wf(*self)
    }

    open spec fn profit_defined(&self) -> bool {
        &&& counter_quantity_defined(self.sell_order)
        &&& counter_quantity_defined(clamped_buy(*self))
    }

    open spec fn profitable(&self) -> bool {
        trade_profitable(*self)
    }

    fn is_profitable(&self) -> (r: Result<bool, SwapArbitrageException>) {
        let sell_out = match self.sell_order.calculate_counter_quantity_after_fee() {
            Ok(v) => v,
            Err(_) => {
                return Err(SwapArbitrageException::Overflow);
            },
        };
        let mut other = self.buy_order.clone();
        if sell_out.lt(&other.base_quantity) {
            other.base_quantity = sell_out;
        }
        let buy_out = match other.calculate_counter_quantity_after_fee() {
            Ok(v) => v,
            Err(_) => {
                return Err(SwapArbitrageException::Overflow);
            },
        };
        Ok(sell_out.lt(&buy_out))
    }
}

/// All four alignment combinations of a pair of books fail: both role
/// orders, crossed with both of the first book's currencies as the trading
/// currency.
pub open spec fn pair_misaligned(b1: OrderBook, b2: OrderBook) -> bool {
    &&& align_of(b1, b2, b1.base.currency_code@) is None
    &&& align_of(b1, b2, b1.counter.currency_code@) is None
    &&& align_of(b2, b1, b1.base.currency_code@) is None
    &&& align_of(b2, b1, b1.counter.currency_code@) is None
}

/// A book's bid side as the scanner reads it: sorted descending.
pub open spec fn sorted_bids_of(b: OrderBook) -> Seq<Order> {
    sort_orders_spec(b.bids.orders@, true)
}

/// A book's ask side as the scanner reads it: sorted ascending.
pub open spec fn sorted_asks_of(b: OrderBook) -> Seq<Order> {
    sort_orders_spec(b.asks.orders@, false)
}

/// The trade one scanner combination extracts from a pair of books, read
/// over their sorted sides.
pub open spec fn scan_trade(a: Alignment, sell_book: OrderBook, buy_book: OrderBook) -> SwapTrade {
    match a {
        Alignment::SameAlignedBaseTrading => SwapTrade {
            sell_order: sorted_bids_of(sell_book)[0],
            buy_order: order_flipped(sorted_asks_of(buy_book)[0]),
            starting_currency: sell_book.base,
        },
        Alignment::SameAlignedCounterTrading => SwapTrade {
            sell_order: order_flipped(sorted_asks_of(sell_book)[0]),
            buy_order: sorted_bids_of(buy_book)[0],
            starting_currency: sell_book.counter,
        },
        Alignment::CrossAlignedBaseTrading => SwapTrade {
            sell_order: sorted_bids_of(sell_book)[0],
            buy_order: sorted_bids_of(buy_book)[0],
            starting_currency: sell_book.base,
        },
        Alignment::CrossAlignedCounterTrading => SwapTrade {
            sell_order: order_flipped(sorted_asks_of(sell_book)[0]),
            buy_order: order_flipped(sorted_asks_of(buy_book)[0]),
            starting_currency: sell_book.counter,
        },
    }
}

/// Every flip one scanner combination needs is defined, read over the
/// books' sorted sides.
pub open spec fn scan_combo_defined(a: Alignment, sell_book: OrderBook, buy_book: OrderBook) -> bool {
    match a {
        Alignment::SameAlignedBaseTrading => order_flip_defined(sorted_asks_of(buy_book)[0]),
        Alignment::SameAlignedCounterTrading => order_flip_defined(sorted_asks_of(sell_book)[0]),
        Alignment::CrossAlignedBaseTrading => true,
        Alignment::CrossAlignedCounterTrading => order_flip_defined(sorted_asks_of(sell_book)[0])
            && order_flip_defined(sorted_asks_of(buy_book)[0]),
    }
}

/// One scanner combination is accounted for in `trades`: whenever the pair
/// aligns for this trading currency, the needed best orders exist, every
/// flip and fee product is representable, and the extracted trade is
/// profitable, that trade stands in `trades`.
pub open spec fn combo_scanned(
    sell_book: OrderBook,
    buy_book: OrderBook,
    tc: Seq<char>,
    trades: Seq<SwapTrade>,
) -> bool {
    ({
        let align = align_of(sell_book, buy_book, tc);
        (align is Some && sides_present(align->0, sell_book, buy_book) && scan_combo_defined(
            align->0,
            sell_book,
            buy_book,
        ) && scan_trade(align->0, sell_book, buy_book).profit_defined() && trade_profitable(
            scan_trade(align->0, sell_book, buy_book),
        )) ==> trades.contains(scan_trade(align->0, sell_book, buy_book))
    })
}

/// All four combinations of a pair of books are accounted for in `trades`.
pub open spec fn pair_scanned(b1: OrderBook, b2: OrderBook, trades: Seq<SwapTrade>) -> bool {
    &&& combo_scanned(b1, b2, b1.base.currency_code@, trades)
    &&& combo_scanned(b1, b2, b1.counter.currency_code@, trades)
    &&& combo_scanned(b2, b1, b1.base.currency_code@, trades)
    &&& combo_scanned(b2, b1, b1.counter.currency_code@, trades)
}

/// `longer` carries everything `shorter` carries, at the same places.
spec fn trades_extend(longer: Seq<SwapTrade>, shorter: Seq<SwapTrade>) -> bool {
    &&& shorter.len() <= longer.len()
    &&& forall|k: int| 0 <= k < shorter.len() ==> longer[k] == #[trigger] shorter[k]
}

proof fn lemma_trades_extend_trans(a: Seq<SwapTrade>, b: Seq<SwapTrade>, c: Seq<SwapTrade>)
    requires
        trades_extend(b, a),
        trades_extend(c, b),
    ensures
        trades_extend(c, a),
{
}

proof fn lemma_combo_scanned_extend(
    sell_book: OrderBook,
    buy_book: OrderBook,
    tc: Seq<char>,
    shorter: Seq<SwapTrade>,
    longer: Seq<SwapTrade>,
)
    requires
        combo_scanned(sell_book, buy_book, tc, shorter),
        trades_extend(longer, shorter),
    ensures
        combo_scanned(sell_book, buy_book, tc, longer),
{
    let align = align_of(sell_book, buy_book, tc);
    if align is Some {
        let t = scan_trade(align->0, sell_book, buy_book);
        if shorter.contains(t) {
            let n = choose|n: int| 0 <= n < shorter.len() && shorter[n] == t;
            assert(longer[n] == t);
        }
    }
}

proof fn lemma_pair_scanned_extend(
    b1: OrderBook,
    b2: OrderBook,
    shorter: Seq<SwapTrade>,
    longer: Seq<SwapTrade>,
)
    requires
        pair_scanned(b1, b2, shorter),
        trades_extend(longer, shorter),
    ensures
        pair_scanned(b1, b2, longer),
{
    lemma_combo_scanned_extend(b1, b2, b1.base.currency_code@, shorter, longer);
    lemma_combo_scanned_extend(b1, b2, b1.counter.currency_code@, shorter, longer);
    lemma_combo_scanned_extend(b2, b1, b1.base.currency_code@, shorter, longer);
    lemma_combo_scanned_extend(b2, b1, b1.counter.currency_code@, shorter, longer);
}

/// Scanning a collection for profitable swap trades.
pub trait GetProfitableTrades: Sized {
    /// What the receiver must satisfy before a scan.
    spec fn scan_wf(&self) -> bool;

    /// No unordered pair of books in the collection aligns under any of the
    /// four combinations.
    spec fn all_pairs_misaligned(&self) -> bool;

    /// Every combination of every unordered pair that aligns, has its best
    /// orders, stays representable and is profitable put its trade into
    /// `trades`.
    spec fn scan_complete(&self, trades: Seq<SwapTrade>) -> bool;

    /// Scans every unordered pair of books, evaluates all four alignment
    /// combinations on sorted snapshots, and keeps the profitable trades:
    /// every returned trade is profitable, every profitable, evaluable
    /// combination is returned, and combinations that fail are skipped,
    /// never aborting the scan; a wholly misaligned collection yields no
    /// trades.
    fn get_profitable_trades(&self) -> (r: Vec<SwapTrade>)
        requires
            self.scan_wf(),
        ensures
            forall|k: int|
                0 <= k < r@.len() ==> (#[trigger] r@[k]).profitable() && r@[k].profit_wf(),
            self.scan_complete(r@),
            self.all_pairs_misaligned() ==> r@.len() == 0,
    ;
}

/// Evaluates one alignment combination of the scan: `sell_order_book` and
/// `buy_order_book` are the sorted images of the collection books `sb` and
/// `bb`; when the combination aligns, is evaluable and profitable, its
/// trade is appended.
fn scan_combo(
    sell_order_book: &mut OrderBook,
    buy_order_book: &mut OrderBook,
    trading_currency: &String,
    profitable_trades: &mut Vec<SwapTrade>,
    Ghost(sb): Ghost<OrderBook>,
    Ghost(bb): Ghost<OrderBook>,
)
    requires
        book_wf(*old(sell_order_book)),
        book_wf(*old(buy_order_book)),
        book_sorted(*old(sell_order_book)),
        book_sorted(*old(buy_order_book)),
        old(sell_order_book).base == sb.base,
        old(sell_order_book).counter == sb.counter,
        old(sell_order_book).bids.orders@ == sorted_bids_of(sb),
        old(sell_order_book).asks.orders@ == sorted_asks_of(sb),
        old(buy_order_book).base == bb.base,
        old(buy_order_book).counter == bb.counter,
        old(buy_order_book).bids.orders@ == sorted_bids_of(bb),
        old(buy_order_book).asks.orders@ == sorted_asks_of(bb),
        forall|k: int|
            0 <= k < old(profitable_trades)@.len() ==> (#[trigger] old(profitable_trades)@[k])
                .profitable() && old(profitable_trades)@[k].profit_wf(),
    ensures
        book_wf(*final(sell_order_book)),
        book_sorted(*final(sell_order_book)),
        book_equiv(*final(sell_order_book), *old(sell_order_book)),
        book_wf(*final(buy_order_book)),
        book_sorted(*final(buy_order_book)),
        book_equiv(*final(buy_order_book), *old(buy_order_book)),
        trades_extend(final(profitable_trades)@, old(profitable_trades)@),
        combo_scanned(sb, bb, trading_currency@, final(profitable_trades)@),
        forall|k: int|
            0 <= k < final(profitable_trades)@.len() ==> (#[trigger] final(profitable_trades)@[k])
                .profitable() && final(profitable_trades)@[k].profit_wf(),
        final(profitable_trades)@.len() > old(profitable_trades)@.len() ==> align_of(
            sb,
            bb,
            trading_currency@,
        ) is Some,
{
    let ghost sob0 = *sell_order_book;
    let ghost bob0 = *buy_order_book;
    let trade = SwapTrade::try_from(sell_order_book, buy_order_book, trading_currency);
    proof {
        lemma_sort_spec_len(sb.bids.orders@, true);
        lemma_sort_spec_len(sb.asks.orders@, false);
        lemma_sort_spec_len(bb.bids.orders@, true);
        lemma_sort_spec_len(bb.asks.orders@, false);
        assert(align_of(sob0, bob0, trading_currency@) == align_of(sb, bb, trading_currency@));
        if align_of(sb, bb, trading_currency@) is Some {
            let a = align_of(sb, bb, trading_currency@)->0;
            assert(sides_present(a, *sell_order_book, *buy_order_book) == sides_present(
                a,
                sb,
                bb,
            ));
            assert(combo_defined(a, *sell_order_book, *buy_order_book) == scan_combo_defined(
                a,
                sb,
                bb,
            ));
            assert(trade_for(a, *sell_order_book, *buy_order_book) == scan_trade(a, sb, bb));
        }
    }
    match trade {
        Ok(t) => {
            match t.is_profitable() {
                Ok(true) => {
                    profitable_trades.push(t);
                    proof {
                        let a = align_of(sb, bb, trading_currency@)->0;
                        assert(profitable_trades@[profitable_trades@.len() - 1] == scan_trade(
                            a,
                            sb,
                            bb,
                        ));
                        assert(profitable_trades@.contains(scan_trade(a, sb, bb)));
                    }
                },
                _ => (),
            }
        },
        Err(_) => (),
    }
}

impl GetProfitableTrades for OrderBooks {
    open spec fn scan_wf(&self) -> bool {
        books_wf(*self)
    }

    open spec fn all_pairs_misaligned(&self) -> bool {
        forall|i: int, j: int|
            0 <= i < j < self.order_books@.len() ==> pair_misaligned(
                #[trigger] self.order_books@[i],
                #[trigger] self.order_books@[j],
            )
    }

    open spec fn scan_complete(&self, trades: Seq<SwapTrade>) -> bool {
        forall|i: int, j: int|
            0 <= i < j < self.order_books@.len() ==> pair_scanned(
                #[trigger] self.order_books@[i],
                #[trigger] self.order_books@[j],
                trades,
            )
    }

    fn get_profitable_trades(&self) -> (r: Vec<SwapTrade>) {
        let n = self.order_books.len();
        let mut profitable_trades: Vec<SwapTrade> = Vec::new();
        let mut i: usize = 0;
        while i < n
            invariant
                books_wf(*self),
                n == self.order_books@.len(),
                i <= n,
                forall|k: int|
                    0 <= k < profitable_trades@.len() ==> (#[trigger] profitable_trades@[k])
                        .profitable() && profitable_trades@[k].profit_wf(),
                self.all_pairs_misaligned() ==> profitable_trades@.len() == 0,
                forall|i1: int, j1: int|
                    0 <= i1 < j1 < n && i1 < i as int ==> pair_scanned(
                        #[trigger] self.order_books@[i1],
                        #[trigger] self.order_books@[j1],
                        profitable_trades@,
                    ),
            decreases n - i,
        {
            let mut j: usize = i + 1;
            while j < n
                invariant
                    books_wf(*self),
                    n == self.order_books@.len(),
                    i < n,
                    i < j <= n,
                    forall|k: int|
                        0 <= k < profitable_trades@.len() ==> (#[trigger] profitable_trades@[k])
                            .profitable() && profitable_trades@[k].profit_wf(),
                    self.all_pairs_misaligned() ==> profitable_trades@.len() == 0,
                    forall|i1: int, j1: int|
                        0 <= i1 < j1 < n && i1 < i as int ==> pair_scanned(
                            #[trigger] self.order_books@[i1],
                            #[trigger] self.order_books@[j1],
                            profitable_trades@,
                        ),
                    forall|j1: int|
                        (i as int) < j1 && j1 < j as int ==> pair_scanned(
                            self.order_books@[i as int],
                            #[trigger] self.order_books@[j1],
                            profitable_trades@,
                        ),
                decreases n - j,
            {
                let ghost bi = self.order_books@[i as int];
                let ghost bj = self.order_books@[j as int];
                let mut order_book_1 = self.order_books[i].clone();
                order_book_1.sort();
                let mut order_book_2 = self.order_books[j].clone();
                order_book_2.sort();
                let trading_base_currency = order_book_1.base.currency_code.clone();
                let trading_counter_currency = order_book_1.counter.currency_code.clone();
                let ghost t0 = profitable_trades@;
                scan_combo(
                    &mut order_book_1,
                    &mut order_book_2,
                    &trading_base_currency,
                    &mut profitable_trades,
                    Ghost(bi),
                    Ghost(bj),
                );
                let ghost t1 = profitable_trades@;
                scan_combo(
                    &mut order_book_1,
                    &mut order_book_2,
                    &trading_counter_currency,
                    &mut profitable_trades,
                    Ghost(bi),
                    Ghost(bj),
                );
                let ghost t2 = profitable_trades@;
                scan_combo(
                    &mut order_book_2,
                    &mut order_book_1,
                    &trading_base_currency,
                    &mut profitable_trades,
                    Ghost(bj),
                    Ghost(bi),
                );
                let ghost t3 = profitable_trades@;
                scan_combo(
                    &mut order_book_2,
                    &mut order_book_1,
                    &trading_counter_currency,
                    &mut profitable_trades,
                    Ghost(bj),
                    Ghost(bi),
                );
                let ghost t4 = profitable_trades@;
                proof {
                    lemma_trades_extend_trans(t0, t1, t2);
                    lemma_trades_extend_trans(t0, t2, t3);
                    lemma_trades_extend_trans(t0, t3, t4);
                    lemma_trades_extend_trans(t1, t2, t3);
                    lemma_trades_extend_trans(t1, t3, t4);
                    lemma_trades_extend_trans(t2, t3, t4);
                    lemma_combo_scanned_extend(bi, bj, bi.base.currency_code@, t1, t4);
                    lemma_combo_scanned_extend(bi, bj, bi.counter.currency_code@, t2, t4);
                    lemma_combo_scanned_extend(bj, bi, bi.base.currency_code@, t3, t4);
                    assert(pair_scanned(bi, bj, profitable_trades@));
                    assert forall|i1: int, j1: int|
                        0 <= i1 < j1 < n && (i1 < i as int || (i1 == i as int && (i as int) < j1
                            && j1 < j as int)) implies pair_scanned(
                        #[trigger] self.order_books@[i1],
                        #[trigger] self.order_books@[j1],
                        profitable_trades@,
                    ) by {
                        if i1 == i as int && j1 == j as int {
                        } else {
                            lemma_pair_scanned_extend(
                                self.order_books@[i1],
                                self.order_books@[j1],
                                t0,
                                t4,
                            );
                        }
                    }
                    if (*self).all_pairs_misaligned() {
                        assert(pair_misaligned(bi, bj));
                        assert(t1.len() == t0.len());
                        assert(t2.len() == t1.len());
                        assert(t3.len() == t2.len());
                        assert(t4.len() == t3.len());
                    }
                }
                j = j + 1;
            }
            i = i + 1;
        }
        profitable_trades
    }
}

} // verus!
