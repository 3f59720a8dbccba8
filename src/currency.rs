use vstd::prelude::*;

verus! {

/// A currency: its code (such as "USD"), its display symbol, and how many
/// fractional digits its minor unit has.
#[derive(Debug)]
pub struct Currency {
    pub code: String,
    pub symbol: String,
    pub precision: u8,
}

impl Currency {
    /// Two descriptors denote the same currency when all three fields agree.
    pub open spec fn same(&self, other: &Currency) -> bool {
        &&& self.code@ == other.code@
        &&& self.symbol@ == other.symbol@
        &&& self.precision == other.precision
    }

    /// Builds a descriptor holding exactly the given fields.
    pub fn new(code: &str, symbol: &str, precision: u8) -> (r: Currency)
        ensures
            r.code@ == code@,
            r.symbol@ == symbol@,
            r.precision == precision,
    {
        Currency { code: code.to_string(), symbol: symbol.to_string(), precision }
    }
}

impl Clone for Currency {
    fn clone(&self) -> (r: Currency)
        ensures
            r == *self,
    {
        Currency { code: self.code.clone(), symbol: self.symbol.clone(), precision: self.precision }
    }
}

impl PartialEq for Currency {
    fn eq(&self, other: &Currency) -> (r: bool) {
        self.precision == other.precision && self.code == other.code && self.symbol == other.symbol
    }
}

impl vstd::std_specs::cmp::PartialEqSpecImpl for Currency {
    open spec fn obeys_eq_spec() -> bool {
        true
    }

    open spec fn eq_spec(&self, other: &Currency) -> bool {
        self.same(other)
    }
}

impl Eq for Currency {

}

} // verus!
