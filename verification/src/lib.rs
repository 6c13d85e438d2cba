//! A currency order-book market with a two-leg swap-arbitrage scanner.
//!
//! The library models priced offers (`Order`) between currencies, keeps them
//! in sorted order books, judges a book's liquidity from its bid/ask spread,
//! and pairs counter-parties across two order books into candidate swap
//! trades whose profitability is evaluated net of transfer fees.

pub mod decimal;
pub mod currency;
pub mod exceptions;
pub mod order;
pub mod order_books;
pub mod order_book;
pub mod swap;
pub mod utils;
