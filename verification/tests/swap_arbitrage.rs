use rust_decimal::Decimal;
use trading_lib::currency::Currency;
use trading_lib::decimal::{Dec, MAX_DEC_MANTISSA};
use trading_lib::exceptions::SwapArbitrageException;
use trading_lib::order::Order;
use trading_lib::order_book::{OrderBook, OrderBookSide, OrderBookSideType};
use trading_lib::order_books::OrderBooks;
use trading_lib::swap::{GetProfitableTrades, IsProfitable, SwapTrade};

fn dec(mantissa: i128, scale: u32) -> Dec {
    Dec { mantissa, scale }
}

fn to_decimal(d: &Dec) -> Decimal {
    Decimal::from_i128_with_scale(d.mantissa, d.scale)
}

fn currency(code: &str, issuer: &str, fee: Dec) -> Currency {
    Currency {
        currency_code: code.to_string(),
        issuer: issuer.to_string(),
        transfer_fee: fee,
    }
}

fn order(base: &Currency, counter: &Currency, quantity: Dec, rate: Dec) -> Order {
    Order {
        base: base.clone(),
        counter: counter.clone(),
        base_quantity: quantity,
        rate,
    }
}

fn book(base: Currency, counter: Currency, bids: Vec<Order>, asks: Vec<Order>) -> OrderBook {
    OrderBook {
        base,
        counter,
        bids: OrderBookSide {
            side_type: OrderBookSideType::Bids,
            orders: bids,
        },
        asks: OrderBookSide {
            side_type: OrderBookSideType::Asks,
            orders: asks,
        },
    }
}

/// XRP/USD at one issuer: best bid 0.24, best ask 0.30, no fees.
fn xrp_usd_book_x() -> OrderBook {
    let xrp = currency("XRP", "", dec(0, 0));
    let usd = currency("USD", "issuerX", dec(0, 0));
    book(
        xrp.clone(),
        usd.clone(),
        vec![order(&xrp, &usd, dec(100, 0), dec(24, 2))],
        vec![order(&xrp, &usd, dec(100, 0), dec(30, 2))],
    )
}

/// XRP/USD at another issuer: best bid 0.20, best ask 0.23, no fees.
fn xrp_usd_book_y() -> OrderBook {
    let xrp = currency("XRP", "", dec(0, 0));
    let usd = currency("USD", "issuerY", dec(0, 0));
    book(
        xrp.clone(),
        usd.clone(),
        vec![order(&xrp, &usd, dec(100, 0), dec(20, 2))],
        vec![order(&xrp, &usd, dec(100, 0), dec(23, 2))],
    )
}

/// A pair of currencies no other fixture book shares.
fn eur_gbp_book() -> OrderBook {
    let eur = currency("EUR", "issuerE", dec(0, 0));
    let gbp = currency("GBP", "issuerG", dec(0, 0));
    book(
        eur.clone(),
        gbp.clone(),
        vec![order(&eur, &gbp, dec(10, 0), dec(85, 2))],
        vec![order(&eur, &gbp, dec(10, 0), dec(90, 2))],
    )
}

#[test]
fn matching_same_aligned_books_for_the_base_currency() {
    let mut sell_book = xrp_usd_book_x();
    let mut buy_book = xrp_usd_book_y();
    let trade =
        SwapTrade::try_from(&mut sell_book, &mut buy_book, &"XRP".to_string()).unwrap();
    // The sell leg consumes the first book's best bid as it stands.
    assert_eq!(trade.sell_order.base.currency_code, "XRP");
    assert_eq!(to_decimal(&trade.sell_order.rate), to_decimal(&dec(24, 2)));
    // The buy leg consumes the second book's best ask, flipped: 100 XRP at
    // 0.23 becomes 23 USD at 1/0.23 XRP per USD.
    assert_eq!(trade.buy_order.base.currency_code, "USD");
    assert_eq!(to_decimal(&trade.buy_order.base_quantity), Decimal::from(23));
    assert_eq!(trade.starting_currency.currency_code, "XRP");
    // Selling 100 XRP yields 24 USD; rebuying at the flipped 0.23 ask
    // returns about 100 XRP for the 23 USD it can absorb: profitable.
    assert_eq!(trade.is_profitable(), Ok(true));
}

#[test]
fn matching_same_aligned_books_for_the_counter_currency() {
    let mut sell_book = xrp_usd_book_x();
    let mut buy_book = xrp_usd_book_y();
    let trade =
        SwapTrade::try_from(&mut sell_book, &mut buy_book, &"USD".to_string()).unwrap();
    // The sell leg is the first book's best ask, flipped into USD terms:
    // 100 XRP at 0.30 becomes 30 USD.
    assert_eq!(trade.sell_order.base.currency_code, "USD");
    assert_eq!(to_decimal(&trade.sell_order.base_quantity), Decimal::from(30));
    // The buy leg is the second book's best bid as it stands.
    assert_eq!(trade.buy_order.base.currency_code, "XRP");
    assert_eq!(to_decimal(&trade.buy_order.rate), to_decimal(&dec(20, 2)));
    assert_eq!(trade.starting_currency.currency_code, "USD");
    // Selling 30 USD yields about 100 XRP, and rebuying USD at bid 0.20
    // returns about 20 USD: not profitable.
    assert_eq!(trade.is_profitable(), Ok(false));
}

#[test]
fn matching_cross_aligned_books_consumes_bids_without_flips() {
    let mut sell_book = xrp_usd_book_x();
    // A USD/XRP book: the reverse pair of the first book.
    let usd = currency("USD", "issuerZ", dec(0, 0));
    let xrp = currency("XRP", "", dec(0, 0));
    let mut buy_book = book(
        usd.clone(),
        xrp.clone(),
        vec![order(&usd, &xrp, dec(50, 0), dec(4, 0))],
        vec![order(&usd, &xrp, dec(50, 0), dec(5, 0))],
    );
    let trade =
        SwapTrade::try_from(&mut sell_book, &mut buy_book, &"XRP".to_string()).unwrap();
    // Both legs consume bids, neither is flipped.
    assert_eq!(to_decimal(&trade.sell_order.rate), to_decimal(&dec(24, 2)));
    assert_eq!(trade.buy_order.base.currency_code, "USD");
    assert_eq!(to_decimal(&trade.buy_order.rate), Decimal::from(4));
    assert_eq!(trade.starting_currency.currency_code, "XRP");
}

#[test]
fn matching_cross_aligned_books_for_the_counter_currency_flips_both_asks() {
    let mut sell_book = xrp_usd_book_x();
    let usd = currency("USD", "issuerZ", dec(0, 0));
    let xrp = currency("XRP", "", dec(0, 0));
    let mut buy_book = book(
        usd.clone(),
        xrp.clone(),
        vec![order(&usd, &xrp, dec(50, 0), dec(4, 0))],
        vec![order(&usd, &xrp, dec(50, 0), dec(5, 0))],
    );
    let trade =
        SwapTrade::try_from(&mut sell_book, &mut buy_book, &"USD".to_string()).unwrap();
    // The sell leg is the XRP/USD ask flipped into USD terms.
    assert_eq!(trade.sell_order.base.currency_code, "USD");
    assert_eq!(to_decimal(&trade.sell_order.base_quantity), Decimal::from(30));
    // The buy leg is the USD/XRP ask flipped into XRP terms: 50 USD at 5
    // becomes 250 XRP at 0.2 USD per XRP.
    assert_eq!(trade.buy_order.base.currency_code, "XRP");
    assert_eq!(to_decimal(&trade.buy_order.base_quantity), Decimal::from(250));
    assert_eq!(trade.starting_currency.currency_code, "USD");
}

#[test]
fn unalignable_books_are_an_invalid_combination() {
    let mut sell_book = xrp_usd_book_x();
    let mut buy_book = eur_gbp_book();
    assert!(matches!(
        SwapTrade::try_from(&mut sell_book, &mut buy_book, &"XRP".to_string()),
        Err(SwapArbitrageException::InvalidOrderBookCombo)
    ));
    // A currency neither book trades cannot align the pair either.
    let mut sell_book_2 = xrp_usd_book_x();
    let mut buy_book_2 = xrp_usd_book_y();
    assert!(matches!(
        SwapTrade::try_from(&mut sell_book_2, &mut buy_book_2, &"EUR".to_string()),
        Err(SwapArbitrageException::InvalidOrderBookCombo)
    ));
}

#[test]
fn an_aligned_pair_missing_its_best_order_is_an_empty_side() {
    let mut sell_book = xrp_usd_book_x();
    let mut buy_book = xrp_usd_book_y();
    buy_book.asks.orders.clear();
    assert!(matches!(
        SwapTrade::try_from(&mut sell_book, &mut buy_book, &"XRP".to_string()),
        Err(SwapArbitrageException::EmptySide)
    ));
}

#[test]
fn a_zero_rate_best_ask_cannot_be_flipped() {
    let mut sell_book = xrp_usd_book_x();
    let mut buy_book = xrp_usd_book_y();
    buy_book.asks.orders[0].rate = dec(0, 0);
    assert!(matches!(
        SwapTrade::try_from(&mut sell_book, &mut buy_book, &"XRP".to_string()),
        Err(SwapArbitrageException::DivideByZero)
    ));
}

#[test]
fn an_overflowing_flip_during_matching_is_an_error() {
    let mut sell_book = xrp_usd_book_x();
    let mut buy_book = xrp_usd_book_y();
    // Flipping this best ask multiplies two full-width mantissas.
    buy_book.asks.orders[0].base_quantity = dec(MAX_DEC_MANTISSA, 0);
    buy_book.asks.orders[0].rate = dec(MAX_DEC_MANTISSA, 0);
    assert!(matches!(
        SwapTrade::try_from(&mut sell_book, &mut buy_book, &"XRP".to_string()),
        Err(SwapArbitrageException::Overflow)
    ));
}

#[test]
fn an_overflowing_profitability_evaluation_is_an_error() {
    let xrp = currency("XRP", "", dec(0, 0));
    let usd = currency("USD", "issuer", dec(0, 0));
    let trade = SwapTrade {
        sell_order: order(&xrp, &usd, dec(MAX_DEC_MANTISSA, 0), dec(MAX_DEC_MANTISSA, 0)),
        buy_order: order(&usd, &xrp, dec(1, 0), dec(1, 0)),
        starting_currency: xrp,
    };
    assert_eq!(
        trade.is_profitable(),
        Err(SwapArbitrageException::Overflow)
    );
}

#[test]
fn try_from_resorts_both_books_first() {
    let xrp = currency("XRP", "", dec(0, 0));
    let usd = currency("USD", "issuerX", dec(0, 0));
    let mut sell_book = book(
        xrp.clone(),
        usd.clone(),
        vec![
            order(&xrp, &usd, dec(100, 0), dec(21, 2)),
            order(&xrp, &usd, dec(100, 0), dec(24, 2)),
        ],
        vec![
            order(&xrp, &usd, dec(100, 0), dec(32, 2)),
            order(&xrp, &usd, dec(100, 0), dec(30, 2)),
        ],
    );
    let mut buy_book = xrp_usd_book_y();
    let trade =
        SwapTrade::try_from(&mut sell_book, &mut buy_book, &"XRP".to_string()).unwrap();
    // The best bid (0.24) is consumed even though it was listed second.
    assert_eq!(to_decimal(&trade.sell_order.rate), to_decimal(&dec(24, 2)));
    assert_eq!(to_decimal(&sell_book.bids.orders[0].rate), to_decimal(&dec(24, 2)));
    assert_eq!(to_decimal(&sell_book.asks.orders[0].rate), to_decimal(&dec(30, 2)));
}

#[test]
fn a_costly_rebuy_is_not_profitable() {
    let xrp = currency("XRP", "", dec(0, 0));
    let usd = currency("USD", "issuerY", dec(0, 0));
    let mut sell_book = xrp_usd_book_x();
    // Rebuying XRP at 5 USD per XRP: the flipped ask quotes 0.2 XRP per
    // USD, so 24 USD return only 4.8 XRP.
    let mut buy_book = book(
        xrp.clone(),
        usd.clone(),
        vec![order(&xrp, &usd, dec(100, 0), dec(20, 2))],
        vec![order(&xrp, &usd, dec(100, 0), dec(5, 0))],
    );
    let trade =
        SwapTrade::try_from(&mut sell_book, &mut buy_book, &"XRP".to_string()).unwrap();
    assert_eq!(trade.is_profitable(), Ok(false));
}

#[test]
fn the_buy_leg_is_clamped_to_what_the_sell_leg_yields() {
    let xrp = currency("XRP", "", dec(0, 0));
    let usd = currency("USD", "issuer", dec(0, 0));
    // Selling yields 24 USD but the buy leg offers 1000 USD of capacity:
    // only the 24 USD actually held are spent.
    let sell_order = order(&xrp, &usd, dec(100, 0), dec(24, 2));
    let buy_order = order(&usd, &xrp, dec(1000, 0), dec(4, 0));
    let trade = SwapTrade {
        sell_order,
        buy_order,
        starting_currency: xrp.clone(),
    };
    // 24 USD * 4 XRP per USD = 96 XRP > 24: profitable.
    assert_eq!(trade.is_profitable(), Ok(true));
    // At 0.2 XRP per USD the 24 USD return only 4.8 XRP: not profitable.
    let meagre = SwapTrade {
        sell_order: order(&xrp, &usd, dec(100, 0), dec(24, 2)),
        buy_order: order(&usd, &xrp, dec(1000, 0), dec(2, 1)),
        starting_currency: xrp,
    };
    assert_eq!(meagre.is_profitable(), Ok(false));
}

#[test]
fn scanning_keeps_only_profitable_trades() {
    let order_books = OrderBooks {
        order_books: vec![xrp_usd_book_x(), xrp_usd_book_y()],
        liquidity_spread: dec(5, 2),
    };
    let trades = order_books.get_profitable_trades();
    assert!(!trades.is_empty());
    for trade in &trades {
        assert_eq!(trade.is_profitable(), Ok(true));
    }
}

#[test]
fn scanning_misaligned_pairs_returns_no_trades() {
    // The two books share no currency code, so all four combinations of
    // every pair fail alignment; the scan completes with nothing.
    let order_books = OrderBooks {
        order_books: vec![xrp_usd_book_x(), eur_gbp_book()],
        liquidity_spread: dec(5, 2),
    };
    let trades = order_books.get_profitable_trades();
    assert!(trades.is_empty());
}

#[test]
fn scanning_an_empty_collection_returns_no_trades() {
    let order_books = OrderBooks {
        order_books: vec![],
        liquidity_spread: dec(5, 2),
    };
    assert!(order_books.get_profitable_trades().is_empty());
}
