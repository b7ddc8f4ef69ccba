use orange_bear::model::{Error, InputField, Model};
use orange_bear::validate::{parse_u32, validate};

#[test]
fn accepts_well_formed_input() {
    let r = validate("10000", "100", "60", 5, Model::FlatHat).unwrap();
    assert_eq!(r.position, 10000);
    assert_eq!(r.start_price, 100);
    assert_eq!(r.dip_price, 60);
    assert_eq!(r.resolution, 5);
    assert_eq!(r.model, Model::FlatHat);
}

#[test]
fn reports_parse_failure_per_field() {
    assert_eq!(
        validate("12a", "100", "60", 5, Model::FlatHat),
        Err(Error::ParseError { field: InputField::Position })
    );
    assert_eq!(
        validate("12", "x", "60", 5, Model::FlatHat),
        Err(Error::ParseError { field: InputField::StartPrice })
    );
    assert_eq!(
        validate("12", "100", "", 5, Model::Pyramid),
        Err(Error::ParseError { field: InputField::DipPrice })
    );
}

#[test]
fn rejects_zero_position_even_with_valid_prices() {
    assert_eq!(
        validate("0", "100", "60", 5, Model::FlatHat),
        Err(Error::NonPositivePosition)
    );
}

#[test]
fn rejects_flat_price_range_even_with_valid_position() {
    assert_eq!(
        validate("10", "60", "60", 5, Model::FlatHat),
        Err(Error::InvertedPriceRange)
    );
    assert_eq!(
        validate("10", "59", "60", 5, Model::Pyramid),
        Err(Error::InvertedPriceRange)
    );
}

#[test]
fn parses_plain_decimal() {
    assert_eq!(parse_u32("0"), Some(0));
    assert_eq!(parse_u32("7"), Some(7));
    assert_eq!(parse_u32("10000"), Some(10000));
    assert_eq!(parse_u32("007"), Some(7));
}

#[test]
fn parses_leading_plus_sign() {
    assert_eq!(parse_u32("+123"), Some(123));
    assert_eq!(parse_u32("+0"), Some(0));
}

#[test]
fn rejects_malformed_numbers() {
    assert_eq!(parse_u32(""), None);
    assert_eq!(parse_u32("+"), None);
    assert_eq!(parse_u32("-5"), None);
    assert_eq!(parse_u32("1 2"), None);
    assert_eq!(parse_u32("12.5"), None);
    assert_eq!(parse_u32("ten"), None);
    assert_eq!(parse_u32("1e3"), None);
}

#[test]
fn respects_u32_bounds() {
    assert_eq!(parse_u32("4294967295"), Some(u32::MAX));
    assert_eq!(parse_u32("4294967296"), None);
    assert_eq!(parse_u32("99999999999999999999"), None);
}

#[test]
fn validated_request_flows_into_the_engine() {
    let req = validate("10000", "100", "60", 5, Model::Pyramid).unwrap();
    let sched = orange_bear::engine::allocate(&req).unwrap();
    assert_eq!(sched.tranches.len(), 5);
    assert_eq!(sched.tranches[0].price, 100);
    assert_eq!(sched.tranches[4].price, 60);
}
