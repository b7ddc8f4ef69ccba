use orange_bear::engine::{allocate, flathat_calc, pyramid_calc};
use orange_bear::model::{Error, Model, OrderRequest, Tranche};

fn tranche(price: u32, shares: u32) -> Tranche {
    Tranche { price, shares }
}

#[test]
fn flat_concrete_scenario() {
    // mid = 80, total shares = 125, 25 per rung, step = 10
    let r = flathat_calc(10000, 100, 60, 5).unwrap();
    assert_eq!(
        r.tranches,
        vec![
            tranche(100, 25),
            tranche(90, 25),
            tranche(80, 25),
            tranche(70, 25),
            tranche(60, 25),
        ]
    );
}

#[test]
fn pyramid_concrete_scenario() {
    // 2000 per rung buys [20, 22, 25, 28, 33]; the leftover 80 buys one more
    // share at 60, leaving 20, which no rung price covers.
    let r = pyramid_calc(10000, 100, 60, 5).unwrap();
    assert_eq!(
        r.tranches,
        vec![
            tranche(100, 20),
            tranche(90, 22),
            tranche(80, 25),
            tranche(70, 28),
            tranche(60, 34),
        ]
    );
}

#[test]
fn pyramid_never_overspends() {
    for (position, start, dip, res) in [
        (10000u32, 100u32, 60u32, 5u32),
        (198, 100, 60, 2),
        (7, 5, 1, 3),
        (4_294_967_295, 1000, 1, 10),
    ] {
        let r = pyramid_calc(position, start, dip, res).unwrap();
        let spent: u64 = r
            .tranches
            .iter()
            .map(|t| t.price as u64 * t.shares as u64)
            .sum();
        assert!(spent <= position as u64);
    }
}

#[test]
fn pyramid_redistribution_stops_at_first_unaffordable_rung() {
    // Base pass: 99 per rung buys [0, 1], spending 60 of 198. The walk buys
    // one more share at 60 (leftover 78), then stops at the 100 rung even
    // though the leftover still covers the cheapest price.
    let r = pyramid_calc(198, 100, 60, 2).unwrap();
    assert_eq!(r.tranches, vec![tranche(100, 0), tranche(60, 2)]);
}

#[test]
fn flat_shares_equal_across_tranches() {
    let r = flathat_calc(5000, 30, 10, 5).unwrap();
    assert_eq!(r.tranches.len(), 5);
    for t in &r.tranches {
        assert_eq!(t.shares, 50);
    }
    let prices: Vec<u32> = r.tranches.iter().map(|t| t.price).collect();
    assert_eq!(prices, vec![30, 25, 20, 15, 10]);
}

#[test]
fn schedule_length_equals_resolution() {
    for res in 2..=10u32 {
        let f = flathat_calc(90000, 500, 100, res).unwrap();
        let p = pyramid_calc(90000, 500, 100, res).unwrap();
        assert_eq!(f.tranches.len(), res as usize);
        assert_eq!(p.tranches.len(), res as usize);
    }
}

#[test]
fn prices_strictly_decrease_when_range_is_wide_enough() {
    let r = pyramid_calc(90000, 500, 100, 9).unwrap();
    for w in r.tranches.windows(2) {
        assert!(w[1].price < w[0].price);
    }
    // first rung at the start price, equal decrements of (500-100)/8 = 50
    assert_eq!(r.tranches[0].price, 500);
    for w in r.tranches.windows(2) {
        assert_eq!(w[0].price - w[1].price, 50);
    }
}

#[test]
fn narrow_range_collapses_to_constant_prices() {
    // step = (100 - 99) / 4 = 0: every rung sits at the start price
    let r = flathat_calc(1000, 100, 99, 5).unwrap();
    let prices: Vec<u32> = r.tranches.iter().map(|t| t.price).collect();
    assert_eq!(prices, vec![100, 100, 100, 100, 100]);
}

#[test]
fn degenerate_resolution_rejected() {
    assert_eq!(
        flathat_calc(10000, 100, 60, 1),
        Err(Error::DegenerateResolution)
    );
    assert_eq!(
        pyramid_calc(10000, 100, 60, 1),
        Err(Error::DegenerateResolution)
    );
    assert_eq!(
        flathat_calc(10000, 100, 60, 0),
        Err(Error::DegenerateResolution)
    );
    assert_eq!(
        pyramid_calc(10000, 100, 60, 0),
        Err(Error::DegenerateResolution)
    );
}

#[test]
fn nonpositive_position_rejected() {
    assert_eq!(flathat_calc(0, 100, 60, 5), Err(Error::NonPositivePosition));
    assert_eq!(pyramid_calc(0, 100, 60, 5), Err(Error::NonPositivePosition));
}

#[test]
fn inverted_price_range_rejected() {
    assert_eq!(flathat_calc(100, 60, 60, 5), Err(Error::InvertedPriceRange));
    assert_eq!(pyramid_calc(100, 60, 60, 5), Err(Error::InvertedPriceRange));
    assert_eq!(flathat_calc(100, 59, 60, 5), Err(Error::InvertedPriceRange));
}

#[test]
fn flat_zero_mid_price_rejected() {
    // (1 + 0) / 2 == 0: the blended mid price would divide by zero
    assert_eq!(flathat_calc(5, 1, 0, 2), Err(Error::DivisionByZero));
}

#[test]
fn pyramid_zero_rung_price_rejected() {
    // step = 1, so the last rung's price is 4 - 4 = 0
    assert_eq!(pyramid_calc(100, 4, 0, 5), Err(Error::DivisionByZero));
}

#[test]
fn pyramid_shares_grow_toward_dip() {
    for (position, start, dip, res) in [
        (10000u32, 100u32, 60u32, 5u32),
        (90000, 500, 100, 9),
        (198, 100, 60, 2),
        (7, 5, 1, 3),
    ] {
        let r = pyramid_calc(position, start, dip, res).unwrap();
        for w in r.tranches.windows(2) {
            assert!(w[0].shares <= w[1].shares);
        }
    }
}

#[test]
fn allocators_are_idempotent() {
    let a = flathat_calc(10000, 100, 60, 5);
    let b = flathat_calc(10000, 100, 60, 5);
    assert_eq!(a, b);
    let c = pyramid_calc(10000, 100, 60, 5);
    let d = pyramid_calc(10000, 100, 60, 5);
    assert_eq!(c, d);
}

#[test]
fn allocate_dispatches_on_model() {
    let flat_req = OrderRequest {
        position: 10000,
        start_price: 100,
        dip_price: 60,
        resolution: 5,
        model: Model::FlatHat,
    };
    let pyr_req = OrderRequest {
        model: Model::Pyramid,
        ..flat_req
    };
    assert_eq!(allocate(&flat_req), flathat_calc(10000, 100, 60, 5));
    assert_eq!(allocate(&pyr_req), pyramid_calc(10000, 100, 60, 5));
}

#[test]
fn model_labels_and_default() {
    assert_eq!(Model::FlatHat.label(), "Flat hat");
    assert_eq!(Model::Pyramid.label(), "Pyramid");
    assert_eq!(Model::default(), Model::FlatHat);
    assert_eq!(Model::ALL, [Model::FlatHat, Model::Pyramid]);
}
