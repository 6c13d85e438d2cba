//! An asset identity: a currency code, its issuer, and the transfer fee the
//! issuer deducts from the counter leg of a trade.
use vstd::prelude::*;

use crate::decimal::{dec_wf, pow10, Dec};

verus! {

/// An asset and its transfer-fee rate.  Immutable once built.
#[derive(Debug)]
pub struct Currency {
    pub currency_code: String,
    pub issuer: String,
    pub transfer_fee: Dec,
}

/// Full equality of two currencies: code, issuer and fee alike.
pub open spec fn currency_eq(a: Currency, b: Currency) -> bool {
    &&& a.currency_code@ == b.currency_code@
    &&& a.issuer@ == b.issuer@
    &&& a.transfer_fee == b.transfer_fee
}

/// Two currencies carry the same code, whoever issues them.
pub open spec fn same_code(a: Currency, b: Currency) -> bool {
    a.currency_code@ == b.currency_code@
}

/// The transfer fee is a representable proportion in `[0, 1)`.
pub open spec fn currency_wf(c: Currency) -> bool {
    &&& dec_wf(c.transfer_fee)
    &&& 0 <= c.transfer_fee.mantissa < pow10(c.transfer_fee.scale as nat)
}

impl Currency {
    /// True iff the currency codes are equal; the issuer and the fee are
    /// deliberately ignored, so two issuers' same-coded assets compare equal.
    pub fn is_same_currency(&self, other: &Currency) -> (r: bool)
        ensures
            r == same_code(*self, *other),
    {
        self.currency_code == other.currency_code
    }
}

impl Clone for Currency {
    fn clone(&self) -> (r: Currency)
        ensures
            r == *self,
    {
        Currency {
            currency_code: self.currency_code.clone(),
            issuer: self.issuer.clone(),
            transfer_fee: self.transfer_fee,
        }
    }
}

impl PartialEq for Currency {
    fn eq(&self, other: &Currency) -> (r: bool) {
        self.currency_code == other.currency_code && self.issuer == other.issuer
            && self.transfer_fee == other.transfer_fee
    }
}

impl vstd::std_specs::cmp::PartialEqSpecImpl for Currency {
    open spec fn obeys_eq_spec() -> bool {
        true
    }

    open spec fn eq_spec(&self, other: &Currency) -> bool {
        currency_eq(*self, *other)
    }
}

} // verus!
