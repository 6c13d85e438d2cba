use rust_decimal::Decimal;
use trading_lib::currency::Currency;
use trading_lib::decimal::{Dec, MAX_DEC_MANTISSA};
use trading_lib::exceptions::OrderBookException;
use trading_lib::order::Order;
use trading_lib::order_book::{OrderBook, OrderBookSide, OrderBookSideType};
use trading_lib::order_books::Flip;
use trading_lib::utils::anyhow_mutex;

fn dec(mantissa: i128, scale: u32) -> Dec {
    Dec { mantissa, scale }
}

fn to_decimal(d: &Dec) -> Decimal {
    Decimal::from_i128_with_scale(d.mantissa, d.scale)
}

fn currency(code: &str, issuer: &str, fee: Dec) -> Currency {
    Currency {
        currency_code: code.to_string(),
        issuer: issuer.to_string(),
        transfer_fee: fee,
    }
}

fn order(base: &Currency, counter: &Currency, quantity: Dec, rate: Dec) -> Order {
    Order {
        base: base.clone(),
        counter: counter.clone(),
        base_quantity: quantity,
        rate,
    }
}

#[test]
fn decimal_order_is_by_value_across_scales() {
    let half = Dec::new(5, 1);
    let half_again = Dec::new(50, 2);
    let quarter = dec(25, 2);
    assert!(half.le(&half_again) && half_again.le(&half));
    assert!(quarter.lt(&half));
    assert!(!half.lt(&quarter));
    assert!(quarter.le(&half));
    let minus_half = dec(-5, 1);
    assert!(minus_half.lt(&quarter));
    assert!(dec(0, 0).is_zero());
    assert!(dec(0, 5).is_zero());
    assert!(!quarter.is_zero());
}

#[test]
fn flip_inverts_rate_and_reexpresses_quantity() {
    let xrp = currency("XRP", "", dec(0, 0));
    let usd = currency("USD", "issuer", dec(1, 1));
    // 80 XRP at 0.25 USD per XRP flips to 20 USD at 4 XRP per USD.
    let mut o = order(&xrp, &usd, dec(80, 0), dec(25, 2));
    o.flip().unwrap();
    assert_eq!(o.base.currency_code, "USD");
    assert_eq!(o.counter.currency_code, "XRP");
    assert_eq!(to_decimal(&o.base_quantity), Decimal::from(20));
    assert_eq!(to_decimal(&o.rate), Decimal::from(4));
}

#[test]
fn flip_twice_restores_the_order_exactly_on_a_dyadic_rate() {
    let xrp = currency("XRP", "", dec(0, 0));
    let usd = currency("USD", "issuer", dec(1, 1));
    let mut o = order(&xrp, &usd, dec(80, 0), dec(25, 2));
    o.flip().unwrap();
    o.flip().unwrap();
    assert_eq!(o.base.currency_code, "XRP");
    assert_eq!(o.counter.currency_code, "USD");
    assert_eq!(to_decimal(&o.base_quantity), Decimal::from(80));
    assert_eq!(to_decimal(&o.rate), to_decimal(&dec(25, 2)));
}

#[test]
fn flip_twice_restores_the_order_within_decimal_rounding() {
    let xrp = currency("XRP", "", dec(0, 0));
    let usd = currency("USD", "issuer", dec(1, 1));
    let mut o = order(&xrp, &usd, dec(80, 0), dec(24, 2));
    o.flip().unwrap();
    o.flip().unwrap();
    assert_eq!(o.base.currency_code, "XRP");
    assert_eq!(o.counter.currency_code, "USD");
    let tolerance = Decimal::from_i128_with_scale(1, 20);
    let quantity_error = (to_decimal(&o.base_quantity) - Decimal::from(80)).abs();
    assert!(quantity_error < tolerance);
    let rate_error = (to_decimal(&o.rate) - to_decimal(&dec(24, 2))).abs();
    assert!(rate_error < tolerance);
}

#[test]
fn flip_of_a_zero_rate_fails_and_leaves_the_order_unchanged() {
    let xrp = currency("XRP", "", dec(0, 0));
    let usd = currency("USD", "issuer", dec(1, 1));
    let mut o = order(&xrp, &usd, dec(80, 0), dec(0, 0));
    assert_eq!(o.flip(), Err(OrderBookException::DivideByZero));
    assert_eq!(o.base.currency_code, "XRP");
    assert_eq!(o.counter.currency_code, "USD");
    assert_eq!(to_decimal(&o.base_quantity), Decimal::from(80));
    assert!(o.rate.mantissa == 0);
}

#[test]
fn counter_quantity_charges_the_fee_on_the_counter_leg_only() {
    let xrp = currency("XRP", "", dec(5, 1));
    let usd = currency("USD", "issuer", dec(1, 1));
    // 100 XRP at 0.24, with a 10% USD transfer fee: 100 * 0.24 * 0.9 = 21.6.
    // The base leg's own fee plays no part.
    let o = order(&xrp, &usd, dec(100, 0), dec(24, 2));
    let yield_after_fee = o.calculate_counter_quantity_after_fee().unwrap();
    assert_eq!(
        to_decimal(&yield_after_fee),
        Decimal::from_i128_with_scale(216, 1)
    );
    // Without a fee the yield is the raw counter quantity.
    let usd_free = currency("USD", "issuer", dec(0, 0));
    let o2 = order(&xrp, &usd_free, dec(100, 0), dec(24, 2));
    assert_eq!(
        to_decimal(&o2.calculate_counter_quantity_after_fee().unwrap()),
        Decimal::from(24)
    );
}

#[test]
fn an_overflowing_fee_adjusted_quantity_is_an_error() {
    let xrp = currency("XRP", "", dec(0, 0));
    let usd = currency("USD", "issuer", dec(0, 0));
    // The raw counter quantity would need more than 96 bits.
    let huge = order(
        &xrp,
        &usd,
        dec(MAX_DEC_MANTISSA, 0),
        dec(MAX_DEC_MANTISSA, 0),
    );
    assert_eq!(
        huge.calculate_counter_quantity_after_fee(),
        Err(OrderBookException::Overflow)
    );
}

#[test]
fn an_overflowing_flip_is_an_error_and_leaves_the_order_unchanged() {
    let xrp = currency("XRP", "", dec(0, 0));
    let usd = currency("USD", "issuer", dec(0, 0));
    let mut huge = order(
        &xrp,
        &usd,
        dec(MAX_DEC_MANTISSA, 0),
        dec(MAX_DEC_MANTISSA, 0),
    );
    assert_eq!(huge.flip(), Err(OrderBookException::Overflow));
    assert_eq!(huge.base.currency_code, "XRP");
    assert_eq!(
        to_decimal(&huge.base_quantity),
        Decimal::from_i128_with_scale(MAX_DEC_MANTISSA, 0)
    );
}

#[test]
fn book_flip_reverses_the_whole_book() {
    let xrp = currency("XRP", "", dec(0, 0));
    let usd = currency("USD", "issuer", dec(1, 1));
    let mut book = OrderBook {
        base: xrp.clone(),
        counter: usd.clone(),
        bids: OrderBookSide {
            side_type: OrderBookSideType::Bids,
            orders: vec![order(&xrp, &usd, dec(80, 0), dec(25, 2))],
        },
        asks: OrderBookSide {
            side_type: OrderBookSideType::Asks,
            orders: vec![order(&xrp, &usd, dec(100, 0), dec(5, 1))],
        },
    };
    book.flip().unwrap();
    // The book now quotes USD against XRP: sides exchanged, every order
    // flipped, base and counter exchanged.
    assert_eq!(book.base.currency_code, "USD");
    assert_eq!(book.counter.currency_code, "XRP");
    assert_eq!(book.bids.side_type, OrderBookSideType::Bids);
    assert_eq!(book.asks.side_type, OrderBookSideType::Asks);
    assert_eq!(book.bids.orders.len(), 1);
    assert_eq!(book.asks.orders.len(), 1);
    // The old ask (100 XRP at 0.5) is now a bid of 50 USD at 2 XRP per USD.
    assert_eq!(book.bids.orders[0].base.currency_code, "USD");
    assert_eq!(to_decimal(&book.bids.orders[0].base_quantity), Decimal::from(50));
    assert_eq!(to_decimal(&book.bids.orders[0].rate), Decimal::from(2));
    // The old bid (80 XRP at 0.25) is now an ask of 20 USD at 4 XRP per USD.
    assert_eq!(book.asks.orders[0].base.currency_code, "USD");
    assert_eq!(to_decimal(&book.asks.orders[0].base_quantity), Decimal::from(20));
    assert_eq!(to_decimal(&book.asks.orders[0].rate), Decimal::from(4));
}

#[test]
fn book_flip_with_a_zero_rate_fails_and_leaves_the_book_unchanged() {
    let xrp = currency("XRP", "", dec(0, 0));
    let usd = currency("USD", "issuer", dec(1, 1));
    let mut book = OrderBook {
        base: xrp.clone(),
        counter: usd.clone(),
        bids: OrderBookSide {
            side_type: OrderBookSideType::Bids,
            orders: vec![order(&xrp, &usd, dec(80, 0), dec(0, 0))],
        },
        asks: OrderBookSide {
            side_type: OrderBookSideType::Asks,
            orders: vec![order(&xrp, &usd, dec(100, 0), dec(5, 1))],
        },
    };
    assert_eq!(book.flip(), Err(OrderBookException::DivideByZero));
    assert_eq!(book.base.currency_code, "XRP");
    assert_eq!(book.bids.orders.len(), 1);
    assert!(book.bids.orders[0].rate.mantissa == 0);
    assert_eq!(to_decimal(&book.asks.orders[0].rate), to_decimal(&dec(5, 1)));
}

#[test]
fn same_currency_ignores_the_issuer_but_equality_does_not() {
    let gatehub = currency("USD", "gatehub", dec(1, 1));
    let bitstamp = currency("USD", "bitstamp", dec(2, 1));
    let xrp = currency("XRP", "", dec(0, 0));
    assert!(gatehub.is_same_currency(&bitstamp));
    assert!(!gatehub.is_same_currency(&xrp));
    assert!(gatehub != bitstamp);
    assert!(gatehub == gatehub.clone());
}

#[test]
fn anyhow_mutex_passes_a_guard_through() {
    assert_eq!(anyhow_mutex(Some(5u32)), Ok(5u32));
}

#[test]
fn anyhow_mutex_reports_an_unavailable_gate() {
    assert_eq!(
        anyhow_mutex::<u32>(None),
        Err(OrderBookException::LockUnavailable)
    );
}
