use crate::currency::Currency;
use crate::digits::{
    lemma_pow10_monotone,
    pow10,
    pow10_u64,
    push_decimal,
    push_zero_padded,
    signed_decimal,
    zero_padded,
};
use crate::error::OwoError;
use crate::json::{encode_record, json_quoted, json_record, quote_json};
use crate::rounding::{collapse_double, collapse_double_bits, RoundingMode};
use std::cmp::Ordering;
use vstd::prelude::*;

verus! {

/// An amount of money: a whole number of minor units (cents, kobo, ...) of
/// a currency.
#[derive(Debug)]
pub struct Owo {
    pub amount: i64,
    pub currency: Currency,
}

/// `a / b` rounded toward zero, as machine integer division does.
pub open spec fn trunc_div(a: int, b: int) -> int {
    let q = abs(a) / abs(b);
    if (a < 0) != (b < 0) {
        -q
    } else {
        q
    }
}

pub open spec fn abs(a: int) -> int {
    if a < 0 {
        -a
    } else {
        a
    }
}

/// The display text of `amount` minor units at `precision` fractional
/// digits: the symbol, the whole part (truncating division), then, unless
/// the precision is zero, '.' and the magnitude's fractional digits padded
/// with zeros to the precision.
pub open spec fn formatted(amount: int, symbol: Seq<char>, precision: nat) -> Seq<char> {
    let whole = trunc_div(amount, pow10(precision) as int);
    let fraction = (abs(amount) % (pow10(precision) as int)) as nat;
    symbol + signed_decimal(whole) + if precision == 0 {
        Seq::empty()
    } else {
        seq!['.'] + zero_padded(fraction, precision)
    }
}

/// The value with the amount negated.
pub open spec fn negated(v: Owo) -> Owo {
    Owo { amount: (-v.amount) as i64, currency: v.currency }
}

/// The sum of two values: defined only within one currency.
pub open spec fn sum(a: Owo, b: Owo) -> Option<Owo> {
    if a.currency.same(&b.currency) {
        Some(Owo { amount: (a.amount + b.amount) as i64, currency: a.currency })
    } else {
        None
    }
}

/// The difference of two values: defined only within one currency.
pub open spec fn difference(a: Owo, b: Owo) -> Option<Owo> {
    if a.currency.same(&b.currency) {
        Some(Owo { amount: (a.amount - b.amount) as i64, currency: a.currency })
    } else {
        None
    }
}

/// The value of `v`'s currency whose amount is the double with bit pattern
/// `scaled` collapsed under `mode`.
pub open spec fn rescaled(v: Owo, scaled: u64, mode: RoundingMode) -> Owo {
    Owo { amount: collapse_double(scaled, mode) as i64, currency: v.currency }
}

impl Owo {
    /// Whether two values have the same currency and the same amount.
    pub open spec fn same(&self, other: &Owo) -> bool {
        self.currency.same(&other.currency) && self.amount == other.amount
    }

    /// The order of two values, defined only within one currency.
    pub open spec fn order(&self, other: &Owo) -> Option<Ordering> {
        if !self.currency.same(&other.currency) {
            None
        } else if self.amount < other.amount {
            Some(Ordering::Less)
        } else if self.amount > other.amount {
            Some(Ordering::Greater)
        } else {
            Some(Ordering::Equal)
        }
    }

    /// A value of `amount` minor units of `currency`, taken as it is.
    pub fn new(amount: i64, currency: Currency) -> (r: Owo)
        ensures
            r.amount == amount,
            r.currency == currency,
    {
        Owo { amount, currency }
    }

    /// The amount in minor units.
    pub fn get_amount(&self) -> (r: i64)
        ensures
            r == self.amount,
    {
        self.amount
    }

    /// The currency code.
    pub fn get_currency(&self) -> (r: &str)
        ensures
            r@ == self.currency.code@,
    {
        self.currency.code.as_str()
    }

    /// The currency's number of fractional digits.
    pub fn get_precision(&self) -> (r: u8)
        ensures
            r == self.currency.precision,
    {
        self.currency.precision
    }

    /// Whether `self` and `rhs` have the same currency and amount.
    pub fn eq(&self, rhs: &Owo) -> (r: bool)
        ensures
            r == self.same(rhs),
    {
        self.currency == rhs.currency && self.amount == rhs.amount
    }

    /// Whether `self` is less than `rhs`; false across currencies.
    pub fn lt(&self, rhs: &Owo) -> (r: bool)
        ensures
            r == (self.currency.same(&rhs.currency) && self.amount < rhs.amount),
    {
        self.currency == rhs.currency && self.amount < rhs.amount
    }

    /// Whether `self` is greater than `rhs`; false across currencies.
    pub fn gt(&self, rhs: &Owo) -> (r: bool)
        ensures
            r == (self.currency.same(&rhs.currency) && self.amount > rhs.amount),
    {
        self.currency == rhs.currency && self.amount > rhs.amount
    }

    /// Collapses `scaled`, the bit pattern of an IEEE-754 double that holds
    /// a scaled amount already expressed in minor units, to a whole number of
    /// minor units under `mode`; the currency is kept and `self` is unchanged.
    pub fn with_scaled(&self, scaled: u64, mode: RoundingMode) -> (r: Owo)
        ensures
            r == rescaled(*self, scaled, mode),
            r.amount == collapse_double(scaled, mode),
    {
        Owo { amount: collapse_double_bits(scaled, mode), currency: self.currency.clone() }
    }

    /// Re-derives the amount from `scaled`, the bit pattern of the double
    /// obtained by taking the amount to major units and back, rounding to the
    /// nearest minor unit (halves away from zero).
    pub fn round_to_precision(&mut self, scaled: u64)
        ensures
            final(self).amount == collapse_double(scaled, RoundingMode::Nearest),
            final(self).currency == old(self).currency,
    {
        self.amount = collapse_double_bits(scaled, RoundingMode::Nearest);
    }

    /// The sum of two values of one currency; a mismatch of currencies is
    /// reported with both codes and no value is made.
    pub fn add(self, rhs: Owo) -> (r: Result<Owo, OwoError>)
        requires
            self.currency.same(&rhs.currency) ==> i64::MIN <= self.amount + rhs.amount
                <= i64::MAX,
        ensures
            r is Ok <==> sum(self, rhs) is Some,
            r is Ok ==> r->Ok_0 == sum(self, rhs)->0,
            r is Ok ==> r->Ok_0.amount == self.amount + rhs.amount,
            r is Err ==> mismatch_of(r->Err_0, &self, &rhs),
    {
        if self.currency == rhs.currency {
            Ok(Owo { amount: self.amount + rhs.amount, currency: self.currency })
        } else {
            Err(OwoError::CurrencyMismatch(self.currency.code, rhs.currency.code))
        }
    }

    /// The difference of two values of one currency; a mismatch of
    /// currencies is reported with both codes and no value is made.
    pub fn sub(self, rhs: Owo) -> (r: Result<Owo, OwoError>)
        requires
            self.currency.same(&rhs.currency) ==> i64::MIN <= self.amount - rhs.amount
                <= i64::MAX,
        ensures
            r is Ok <==> difference(self, rhs) is Some,
            r is Ok ==> r->Ok_0 == difference(self, rhs)->0,
            r is Ok ==> r->Ok_0.amount == self.amount - rhs.amount,
            r is Err ==> mismatch_of(r->Err_0, &self, &rhs),
    {
        if self.currency == rhs.currency {
            Ok(Owo { amount: self.amount - rhs.amount, currency: self.currency })
        } else {
            Err(OwoError::CurrencyMismatch(self.currency.code, rhs.currency.code))
        }
    }

    /// The value times an integer factor, exactly.
    pub fn mul(self, rhs: i64) -> (r: Owo)
        requires
            i64::MIN <= self.amount * rhs <= i64::MAX,
        ensures
            r.amount == self.amount * rhs,
            r.currency == self.currency,
    {
        Owo { amount: self.amount * rhs, currency: self.currency }
    }

    /// The value divided by an integer, rounding toward zero; a zero divisor
    /// is reported and no value is made.
    pub fn div(self, rhs: i64) -> (r: Result<Owo, OwoError>)
        requires
            !(self.amount == i64::MIN && rhs == -1),
        ensures
            r is Ok <==> rhs != 0,
            r is Ok ==> r->Ok_0.amount == trunc_div(self.amount as int, rhs as int)
                && r->Ok_0.currency == self.currency,
            r is Err ==> r->Err_0 is DivisionByZero,
    {
        if rhs == 0 {
            return Err(OwoError::DivisionByZero);
        }
        let a_mag: u64 = if self.amount < 0 {
            (-(self.amount as i128)) as u64
        } else {
            self.amount as u64
        };
        let b_mag: u64 = if rhs < 0 {
            (-(rhs as i128)) as u64
        } else {
            rhs as u64
        };
        let q: u64 = a_mag / b_mag;
        proof {
            assert(q * b_mag <= a_mag) by (nonlinear_arith)
                requires
                    q == a_mag / b_mag,
                    b_mag >= 1,
            ;
            if b_mag >= 2 {
                assert(2 * q <= q * b_mag) by (nonlinear_arith)
                    requires
                        b_mag >= 2,
                ;
            }
        }
        let amount: i64 = if (self.amount < 0) != (rhs < 0) {
            (-(q as i128)) as i64
        } else {
            q as i64
        };
        Ok(Owo { amount, currency: self.currency })
    }

    /// The value with its amount negated.
    pub fn neg(self) -> (r: Owo)
        requires
            self.amount != i64::MIN,
        ensures
            r == negated(self),
            r.amount == -self.amount,
    {
        Owo { amount: -self.amount, currency: self.currency }
    }

    /// The display text: symbol, whole part, and the fractional digits
    /// after a '.' unless the precision is zero.
    pub fn format(&self) -> (r: String)
        ensures
            r@ == formatted(
                self.amount as int,
                self.currency.symbol@,
                self.currency.precision as nat,
            ),
    {
        let precision: u8 = self.currency.precision;
        let negative: bool = self.amount < 0;
        let mag: u64 = if negative {
            (-(self.amount as i128)) as u64
        } else {
            self.amount as u64
        };
        let capped: u8 = if precision > 19 {
            19
        } else {
            precision
        };
        let divisor: u64 = pow10_u64(capped);
        proof {
            lemma_pow10_monotone(0, capped as nat);
            lemma_pow10_monotone(capped as nat, precision as nat);
            reveal_with_fuel(pow10, 20);
            assert(pow10(19) == 10000000000000000000);
        }
        let whole_mag: u64 = mag / divisor;
        let fraction: u64 = mag % divisor;
        proof {
            if precision > 19 {
                let big = pow10(precision as nat) as int;
                vstd::arithmetic::div_mod::lemma_basic_div(mag as int, big);
                vstd::arithmetic::div_mod::lemma_small_mod(mag as nat, big as nat);
                vstd::arithmetic::div_mod::lemma_basic_div(mag as int, divisor as int);
                vstd::arithmetic::div_mod::lemma_small_mod(mag as nat, divisor as nat);
            }
            assert(whole_mag <= mag) by (nonlinear_arith)
                requires
                    whole_mag == mag / divisor,
                    divisor >= 1,
            ;
        }
        proof {
            let big = pow10(precision as nat) as int;
            assert(abs(self.amount as int) == mag as int);
            assert(whole_mag as int == mag as int / big);
            assert(fraction as int == mag as int % big);
            assert(trunc_div(self.amount as int, big) == if negative {
                -(whole_mag as int)
            } else {
                whole_mag as int
            });
        }
        proof {
            reveal_strlit("-");
            reveal_strlit(".");
        }
        let mut s: String = self.currency.symbol.clone();
        if negative && whole_mag > 0 {
            s.append("-");
        }
        push_decimal(&mut s, whole_mag);
        if precision > 0 {
            s.append(".");
            push_zero_padded(&mut s, fraction, precision);
        }
        assert(s@ =~= formatted(
            self.amount as int,
            self.currency.symbol@,
            self.currency.precision as nat,
        ));
        s
    }

    /// The JSON record of the value, fields in the order amount, currency;
    /// code, symbol, precision. Encoding always succeeds.
    pub fn to_json(&self) -> (r: Result<String, OwoError>)
        ensures
            r is Ok,
            r is Ok ==> r->Ok_0@ == json_record(
                self.amount as int,
                json_quoted(self.currency.code@),
                json_quoted(self.currency.symbol@),
                self.currency.precision as nat,
            ),
    {
        let code = match quote_json(self.currency.code.as_str()) {
            Ok(q) => q,
            Err(e) => {
                return Err(OwoError::SerdeError(e));
            },
        };
        let symbol = match quote_json(self.currency.symbol.as_str()) {
            Ok(q) => q,
            Err(e) => {
                return Err(OwoError::SerdeError(e));
            },
        };
        Ok(encode_record(self.amount, code.as_str(), symbol.as_str(), self.currency.precision))
    }
}

impl Clone for Owo {
    fn clone(&self) -> (r: Owo)
        ensures
            r == *self,
    {
        Owo { amount: self.amount, currency: self.currency.clone() }
    }
}

impl PartialEq for Owo {
    fn eq(&self, other: &Owo) -> (r: bool) {
        self.currency == other.currency && self.amount == other.amount
    }
}

impl vstd::std_specs::cmp::PartialEqSpecImpl for Owo {
    open spec fn obeys_eq_spec() -> bool {
        true
    }

    open spec fn eq_spec(&self, other: &Owo) -> bool {
        self.same(other)
    }
}

impl PartialOrd for Owo {
    fn partial_cmp(&self, other: &Owo) -> (r: Option<Ordering>) {
        if self.currency != other.currency {
            None
        } else if self.amount < other.amount {
            Some(Ordering::Less)
        } else if self.amount > other.amount {
            Some(Ordering::Greater)
        } else {
            Some(Ordering::Equal)
        }
    }
}

impl vstd::std_specs::cmp::PartialOrdSpecImpl for Owo {
    open spec fn obeys_partial_cmp_spec() -> bool {
        true
    }

    open spec fn partial_cmp_spec(&self, other: &Owo) -> Option<Ordering> {
        self.order(other)
    }
}

/// `e` reports that `a` and `b` have different currencies, with their codes.
pub open spec fn mismatch_of(e: OwoError, a: &Owo, b: &Owo) -> bool {
    &&& e is CurrencyMismatch
    &&& e->CurrencyMismatch_0@ == a.currency.code@
    &&& e->CurrencyMismatch_1@ == b.currency.code@
}

} // verus!
