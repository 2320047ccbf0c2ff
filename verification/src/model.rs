//! The value types a trade tick and a bar specification are made of: instrument
//! and trade identifiers, fixed-point prices and quantities, and the enums that
//! describe aggregation.

use vstd::prelude::*;
use vstd::string::*;

use crate::decimal::{fixed_repr, fixed_text_denotes, is_digit, lemma_fixed_repr_denotes, push_fixed};

verus! {

/// An instrument identifier: a symbol traded at a venue, rendered `SYMBOL.VENUE`.
#[derive(Debug, PartialEq, Eq, Hash)]
pub struct InstrumentId {
    /// The instrument's ticker symbol.
    pub symbol: String,
    /// The trading venue.
    pub venue: String,
}

impl InstrumentId {
    /// The text of the identifier: `SYMBOL.VENUE`.
    pub open spec fn repr(&self) -> Seq<char> {
        self.symbol@ + "."@ + self.venue@
    }

    /// Creates an identifier from its symbol and venue.
    pub fn new(symbol: String, venue: String) -> (res: Self)
        ensures
            res.symbol == symbol,
            res.venue == venue,
    {
        InstrumentId { symbol, venue }
    }

    /// The identifier as text (its `Display` form).
    pub fn to_string(&self) -> (res: String)
        ensures
            res@ == self.repr(),
    {
        let mut s = self.symbol.clone();
        s.append(".");
        s.append(self.venue.as_str());
        s
    }
}

impl Clone for InstrumentId {
    fn clone(&self) -> (res: Self)
        ensures
            res == *self,
    {
        InstrumentId { symbol: self.symbol.clone(), venue: self.venue.clone() }
    }
}

/// A trade match identifier assigned by the venue.
#[derive(Clone, Debug, PartialEq, Eq, Hash)]
pub struct TradeId {
    /// The identifier text.
    pub value: String,
}

impl TradeId {
    /// Creates a trade identifier.
    pub fn new(value: String) -> (res: Self)
        ensures
            res.value == value,
    {
        TradeId { value }
    }
}

/// A fixed-point price: `raw * 10^-precision`, rendered with exactly `precision`
/// fractional digits.
#[derive(Clone, Copy, Debug, PartialEq, Eq, Hash)]
pub struct Price {
    /// The price in units of `10^-precision`.
    pub raw: i64,
    /// The number of fractional digits.
    pub precision: u8,
}

impl Price {
    /// The text of the price: a `-` for a negative price, then the magnitude.
    pub open spec fn repr(&self) -> Seq<char> {
        if self.raw < 0 {
            "-"@ + fixed_repr((-self.raw) as nat, self.precision as nat)
        } else {
            fixed_repr(self.raw as nat, self.precision as nat)
        }
    }

    /// Creates a price from its raw value and precision.
    pub fn new(raw: i64, precision: u8) -> (res: Self)
        ensures
            res.raw == raw,
            res.precision == precision,
    {
        Price { raw, precision }
    }

    /// The price as text (its `Display` form).
    pub fn to_string(&self) -> (res: String)
        ensures
            res@ == self.repr(),
    {
        let mut s = String::new();
        if self.raw < 0 {
            s.append("-");
            let mag: u64 = (-(self.raw as i128)) as u64;
            push_fixed(&mut s, mag, self.precision);
        } else {
            push_fixed(&mut s, self.raw as u64, self.precision);
        }
        assert(s@ =~= self.repr());
        s
    }
}

/// A fixed-point, non-negative quantity: `raw * 10^-precision`.
#[derive(Clone, Copy, Debug, PartialEq, Eq, Hash)]
pub struct Quantity {
    /// The quantity in units of `10^-precision`.
    pub raw: u64,
    /// The number of fractional digits.
    pub precision: u8,
}

impl Quantity {
    /// The text of the quantity.
    pub open spec fn repr(&self) -> Seq<char> {
        fixed_repr(self.raw as nat, self.precision as nat)
    }

    /// Creates a quantity from its raw value and precision.
    pub fn new(raw: u64, precision: u8) -> (res: Self)
        ensures
            res.raw == raw,
            res.precision == precision,
    {
        Quantity { raw, precision }
    }

    /// Whether the quantity is greater than zero.
    pub fn is_positive(&self) -> (res: bool)
        ensures
            res == (self.raw > 0),
    {
        self.raw > 0
    }

    /// The quantity as text (its `Display` form).
    pub fn to_string(&self) -> (res: String)
        ensures
            res@ == self.repr(),
    {
        let mut s = String::new();
        push_fixed(&mut s, self.raw, self.precision);
        s
    }
}

/// The text of a price is a `-` exactly when the price is negative, followed by
/// the text of its magnitude at its precision.
pub proof fn lemma_price_text_denotes(p: Price)
    ensures
        p.raw < 0 ==> p.repr()[0] == '-' && fixed_text_denotes(
            p.repr().skip(1),
            (-p.raw) as nat,
            p.precision as nat,
        ),
        p.raw >= 0 ==> p.repr()[0] != '-' && fixed_text_denotes(
            p.repr(),
            p.raw as nat,
            p.precision as nat,
        ),
{
    reveal_strlit("-");
    if p.raw < 0 {
        lemma_fixed_repr_denotes((-p.raw) as nat, p.precision as nat);
        assert("-"@ =~= seq!['-']);
        assert(p.repr().skip(1) =~= fixed_repr((-p.raw) as nat, p.precision as nat));
    } else {
        let t = fixed_repr(p.raw as nat, p.precision as nat);
        lemma_fixed_repr_denotes(p.raw as nat, p.precision as nat);
        if p.precision == 0 {
            assert(is_digit(t[0]));
        } else {
            let dot = t.len() - p.precision - 1;
            assert(t.take(dot)[0] == t[0]);
            assert(is_digit(t.take(dot)[0]));
        }
    }
}

/// The text of a quantity is the text of its value at its precision.
pub proof fn lemma_quantity_text_denotes(q: Quantity)
    ensures
        fixed_text_denotes(q.repr(), q.raw as nat, q.precision as nat),
{
    lemma_fixed_repr_denotes(q.raw as nat, q.precision as nat);
}

/// The side of the trade that took liquidity.
#[derive(Clone, Copy, Debug, PartialEq, Eq, Hash)]
pub enum AggressorSide {
    /// No aggressor.
    NoAggressor,
    /// The buyer was the aggressor.
    Buyer,
    /// The seller was the aggressor.
    Seller,
}

impl AggressorSide {
    /// The text of the side.
    pub open spec fn repr(&self) -> Seq<char> {
        match self {
            AggressorSide::NoAggressor => "NO_AGGRESSOR"@,
            AggressorSide::Buyer => "BUYER"@,
            AggressorSide::Seller => "SELLER"@,
        }
    }

    /// The side as text (its `Display` form).
    pub fn to_string(&self) -> (res: String)
        ensures
            res@ == self.repr(),
    {
        match self {
            AggressorSide::NoAggressor => "NO_AGGRESSOR".to_owned(),
            AggressorSide::Buyer => "BUYER".to_owned(),
            AggressorSide::Seller => "SELLER".to_owned(),
        }
    }
}

/// How a bar aggregates trades.
#[derive(Clone, Copy, Debug, PartialEq, Eq, Hash)]
pub enum BarAggregation {
    Tick,
    TickImbalance,
    TickRuns,
    Volume,
    VolumeImbalance,
    VolumeRuns,
    Value,
    ValueImbalance,
    ValueRuns,
    Millisecond,
    Second,
    Minute,
    Hour,
    Day,
    Week,
    Month,
}

/// Which price of a trade a bar is built from.
#[derive(Clone, Copy, Debug, PartialEq, Eq, Hash)]
pub enum PriceType {
    Bid,
    Ask,
    Mid,
    Last,
}

/// Where bars are aggregated.
#[derive(Clone, Copy, Debug, PartialEq, Eq, Hash)]
pub enum AggregationSource {
    External,
    Internal,
}

/// Whether a time bar's interval is open on the left or on the right.
#[derive(Clone, Copy, Debug, PartialEq, Eq, Hash)]
pub enum BarIntervalType {
    LeftOpen,
    RightOpen,
}

/// A bar specification: `step` units of `aggregation`, from `price_type` prices.
#[derive(Clone, Copy, Debug, PartialEq, Eq, Hash)]
pub struct BarSpecification {
    pub step: usize,
    pub aggregation: BarAggregation,
    pub price_type: PriceType,
}

impl BarSpecification {
    /// Creates a bar specification.
    pub fn new(step: usize, aggregation: BarAggregation, price_type: PriceType) -> (res: Self)
        ensures
            res.step == step,
            res.aggregation == aggregation,
            res.price_type == price_type,
    {
        BarSpecification { step, aggregation, price_type }
    }
}

/// A bar type: an instrument, a bar specification and an aggregation source.
#[derive(Clone, Debug, PartialEq, Eq, Hash)]
pub struct BarType {
    pub instrument_id: InstrumentId,
    pub spec: BarSpecification,
    pub aggregation_source: AggregationSource,
}

impl BarType {
    /// Creates a bar type.
    pub fn new(
        instrument_id: InstrumentId,
        spec: BarSpecification,
        aggregation_source: AggregationSource,
    ) -> (res: Self)
        ensures
            res.instrument_id == instrument_id,
            res.spec == spec,
            res.aggregation_source == aggregation_source,
    {
        BarType { instrument_id, spec, aggregation_source }
    }

    /// The bar specification of the bar type.
    pub fn spec(&self) -> (res: BarSpecification)
        ensures
            res == self.spec,
    {
        self.spec
    }
}

} // verus!
