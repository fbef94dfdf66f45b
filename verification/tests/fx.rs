use beerdata::fx::{Rate, RateError, SnapshotError, UsdRates};

fn rate(code: &str, value: f64) -> Rate {
    Rate {
        code: code.to_owned(),
        bits: value.to_bits(),
    }
}

fn snapshot(date: &str, rates: &[(&str, f64)]) -> UsdRates {
    UsdRates {
        date: date.to_owned(),
        usd: rates.iter().map(|(code, value)| rate(code, *value)).collect(),
    }
}

#[test]
fn interprets_rates_as_local_currency_per_usd() {
    let rates = snapshot("2026-09-22", &[("usd", 1.0), ("eur", 0.8), ("gbp", 0.0)]);

    assert!(rates.validate().is_ok());
    assert_eq!(f64::from_bits(rates.local_per_usd("EUR").ok().unwrap()), 0.8);
    assert_eq!(f64::from_bits(rates.local_per_usd("USD").ok().unwrap()), 1.0);
    assert!(rates.local_per_usd("GBP").is_err());
    assert!(rates.local_per_usd("WST").is_err());
}

#[test]
fn rate_errors_tell_missing_from_invalid() {
    let rates = snapshot("2026-09-22", &[("usd", 1.0), ("gbp", f64::NAN)]);
    assert!(matches!(rates.local_per_usd("GBP"), Err(RateError::Invalid)));
    assert!(matches!(rates.local_per_usd("WST"), Err(RateError::Missing)));
    assert_eq!(rates.local_per_usd("eUr").is_err(), rates.local_per_usd("EUR").is_err());
}

#[test]
fn snapshot_needs_a_date_and_usd_at_one() {
    assert!(matches!(
        snapshot("", &[("usd", 1.0)]).validate(),
        Err(SnapshotError::Invalid)
    ));
    assert!(matches!(
        snapshot("2026-09-22", &[("usd", 1.1)]).validate(),
        Err(SnapshotError::Invalid)
    ));
    assert!(matches!(
        snapshot("2026-09-22", &[("eur", 0.8)]).validate(),
        Err(SnapshotError::Rate(RateError::Missing))
    ));
    assert!(matches!(
        snapshot("2026-09-22", &[("usd", -1.0)]).validate(),
        Err(SnapshotError::Rate(RateError::Invalid))
    ));
}

#[test]
fn rate_validity_is_read_from_the_bits() {
    for value in [0.0, -0.0, -1.0, f64::INFINITY, f64::NEG_INFINITY, f64::NAN, f64::MIN_POSITIVE, 5e-324, 1e308] {
        let rates = snapshot("2026-09-22", &[("usd", 1.0), ("xxx", value)]);
        assert_eq!(
            rates.local_per_usd("XXX").is_ok(),
            value.is_finite() && value > 0.0,
            "{value}"
        );
    }
    assert!(snapshot("2026-09-22", &[("usd", 1.0000000000000002)]).validate().is_err());
}
