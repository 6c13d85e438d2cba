//! One priced offer: `base_quantity` units of the base currency in exchange
//! for `rate * base_quantity` units of the counter currency.
use vstd::prelude::*;

use crate::currency::{currency_wf, Currency};
use crate::decimal::{dec_wf, div_of, mul_of, sub_of, Dec};
use crate::exceptions::OrderBookException;
use crate::order_books::Flip;

verus! {

/// An offer of `base_quantity` units of `base` at `rate` units of `counter`
/// per unit of `base`.
#[derive(Debug)]
pub struct Order {
    pub base: Currency,
    pub counter: Currency,
    pub base_quantity: Dec,
    pub rate: Dec,
}

/// Every decimal the order carries is representable, and the fees are
/// proportions.
pub open spec fn order_wf(o: Order) -> bool {
    &&& dec_wf(o.base_quantity)
    &&& dec_wf(o.rate)
    &&& currency_wf(o.base)
    &&& currency_wf(o.counter)
}

/// The unit value one.
pub open spec fn dec_one() -> Dec {
    Dec { mantissa: 1, scale: 0 }
}

/// The order `o` reoriented: rate inverted, the quantity re-expressed in the
/// old counter currency (`base_quantity * rate`), base and counter
/// exchanged.
pub open spec fn order_flipped(o: Order) -> Order {
    Order {
        base: o.counter,
        counter: o.base,
        base_quantity: mul_of(o.base_quantity, o.rate)->0,
        rate: div_of(dec_one(), o.rate)->0,
    }
}

/// The flip of `o` is defined: its rate is not zero and neither the
/// inverted rate nor the re-expressed quantity overflows.
pub open spec fn order_flip_defined(o: Order) -> bool {
    &&& o.rate.mantissa != 0
    &&& div_of(dec_one(), o.rate) is Some
    &&& mul_of(o.base_quantity, o.rate) is Some
}

/// The counter-currency quantity the offer yields once the counter leg's
/// transfer fee is deducted: `base_quantity * rate * (1 - fee)`.
pub open spec fn counter_quantity_after_fee(o: Order) -> Dec {
    mul_of(
        mul_of(o.base_quantity, o.rate)->0,
        sub_of(dec_one(), o.counter.transfer_fee)->0,
    )->0
}

/// The fee-adjusted counter quantity is defined: none of its three steps
/// overflows.
pub open spec fn counter_quantity_defined(o: Order) -> bool {
    &&& mul_of(o.base_quantity, o.rate) is Some
    &&& sub_of(dec_one(), o.counter.transfer_fee) is Some
    &&& mul_of(
        mul_of(o.base_quantity, o.rate)->0,
        sub_of(dec_one(), o.counter.transfer_fee)->0,
    ) is Some
}

impl Order {
    /// `base_quantity * rate * (1 - counter.transfer_fee)`: the fee is
    /// charged on the counter leg only.  Succeeds exactly when no step
    /// leaves the representable decimal range; `Overflow` otherwise.
    pub fn calculate_counter_quantity_after_fee(&self) -> (r: Result<Dec, OrderBookException>)
        requires
            order_wf(*self),
        ensures
            r is Ok <==> counter_quantity_defined(*self),
            r is Ok ==> r->Ok_0 == counter_quantity_after_fee(*self) && dec_wf(r->Ok_0),
            r is Err ==> r->Err_0 == OrderBookException::Overflow,
    {
        let gross = match self.base_quantity.checked_mul(&self.rate) {
            Some(v) => v,
            None => {
                return Err(OrderBookException::Overflow);
            },
        };
        let one = Dec { mantissa: 1, scale: 0 };
        let factor = match one.checked_sub(&self.counter.transfer_fee) {
            Some(v) => v,
            None => {
                return Err(OrderBookException::Overflow);
            },
        };
        match gross.checked_mul(&factor) {
            Some(v) => Ok(v),
            None => Err(OrderBookException::Overflow),
        }
    }
}

/// Flipping an order twice restores its base and counter currencies exactly,
/// and reorients it the same way round as the original.  (The rate and the
/// quantity return to their starting values only up to decimal rounding,
/// which this statement does not cover.)
pub proof fn lemma_flip_flip_restores_currencies(o: Order)
    ensures
        order_flipped(order_flipped(o)).base == o.base,
        order_flipped(order_flipped(o)).counter == o.counter,
{
}

impl Clone for Order {
    fn clone(&self) -> (r: Order)
        ensures
            r == *self,
    {
        Order {
            base: self.base.clone(),
            counter: self.counter.clone(),
            base_quantity: self.base_quantity,
            rate: self.rate,
        }
    }
}

impl Flip for Order {
    open spec fn flip_wf(&self) -> bool {
        order_wf(*self)
    }

    open spec fn flip_ready(&self) -> bool {
        self.rate.mantissa != 0
    }

    open spec fn flip_defined(&self) -> bool {
        order_flip_defined(*self)
    }

    open spec fn is_flip_of(&self, other: &Order) -> bool {
        *self == order_flipped(*other)
    }

    fn flip(&mut self) -> (r: Result<(), OrderBookException>) {
        if self.rate.mantissa == 0 {
            return Err(OrderBookException::DivideByZero);
        }
        let one = Dec { mantissa: 1, scale: 0 };
        let new_rate = match one.checked_div(&self.rate) {
            Some(v) => v,
            None => {
                return Err(OrderBookException::Overflow);
            },
        };
        let new_quantity = match self.base_quantity.checked_mul(&self.rate) {
            Some(v) => v,
            None => {
                return Err(OrderBookException::Overflow);
            },
        };
        core::mem::swap(&mut self.base, &mut self.counter);
        self.rate = new_rate;
        self.base_quantity = new_quantity;
        Ok(())
    }
}

} // verus!
