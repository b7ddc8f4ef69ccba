//! Order-distribution calculator for averaging into a position as price falls.
//!
//! A trader supplies a total position size (in price-times-shares units), a
//! starting price, an estimated dip price and a resolution (number of price
//! rungs). The library validates those inputs and turns them into a schedule
//! of limit-order tranches under one of two policies: `FlatHat` (equal share
//! count at every rung) and `Pyramid` (equal capital per rung, so more shares
//! accumulate at the cheaper rungs, with leftover capital redistributed).

pub mod engine;
pub mod laws;
pub mod model;
pub mod validate;
