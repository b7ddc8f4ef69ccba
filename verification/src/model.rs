//! Data model: allocation policies, error taxonomy, requests and schedules.

use vstd::prelude::*;

verus! {

/// The allocation policy: a pure dispatch tag with no hidden state.
#[derive(Debug, Clone, Copy, PartialEq, Eq, Structural)]
pub enum Model {
    /// Equal share count at every price rung.
    FlatHat,
    /// Equal capital per rung, so share counts grow as price falls.
    Pyramid,
}

impl Model {
    /// Every variant, in declaration order, for hosts that enumerate policies.
    pub const ALL: [Model; 2] = [Model::FlatHat, Model::Pyramid];

    /// Human-readable name of the policy.
    pub fn label(&self) -> (r: String)
        ensures
            *self == Model::FlatHat ==> r@ == "Flat hat"@,
            *self == Model::Pyramid ==> r@ == "Pyramid"@,
    {
        match self {
            Model::FlatHat => "Flat hat".to_string(),
            Model::Pyramid => "Pyramid".to_string(),
        }
    }
}

impl Default for Model {
    fn default() -> (r: Self)
        ensures
            r == Model::FlatHat,
    {
        Model::FlatHat
    }
}

/// The three text inputs, named so that a parse failure can be reported
/// against the field that caused it.
#[derive(Debug, Clone, Copy, PartialEq, Eq, Structural)]
pub enum InputField {
    Position,
    StartPrice,
    DipPrice,
}

/// Everything that can go wrong between raw text and a finished schedule.
#[derive(Debug, Clone, Copy, PartialEq, Eq, Structural)]
pub enum Error {
    /// A text input is not a valid non-negative integer that fits in `u32`.
    ParseError { field: InputField },
    /// The position is zero: there is no capital to distribute.
    NonPositivePosition,
    /// The start price does not exceed the dip price.
    InvertedPriceRange,
    /// Fewer than two rungs: the step formula would divide by zero.
    DegenerateResolution,
    /// A derived denominator (mid price, or a rung price) is zero.
    DivisionByZero,
}

/// A validated allocation request: immutable once built, consumed by the engine.
#[derive(Debug, Clone, Copy, PartialEq, Eq, Structural)]
pub struct OrderRequest {
    /// Capital to distribute, in price-times-shares units.
    pub position: u32,
    /// Price of the first (most expensive) rung.
    pub start_price: u32,
    /// Lowest expected price, the last rung.
    pub dip_price: u32,
    /// Number of rungs in the schedule.
    pub resolution: u32,
    /// Which allocation policy processes this request.
    pub model: Model,
}

impl OrderRequest {
    /// The domain invariant every request must satisfy before allocation.
    pub open spec fn valid(self) -> bool {
        &&& self.position > 0
        &&& self.start_price > self.dip_price
        &&& self.resolution >= 2
    }
}

/// One rung of the buy schedule: a limit order for `shares` at `price`.
#[derive(Debug, Clone, Copy, PartialEq, Eq, Structural)]
pub struct Tranche {
    pub price: u32,
    pub shares: u32,
}

/// An ordered sequence of tranches, from the start price down to the dip.
/// Constructed fresh by the engine on every submission; never mutated.
#[derive(Debug, Clone, PartialEq, Eq)]
pub struct OrderSchedule {
    pub tranches: Vec<Tranche>,
}

} // verus!
