use beerdata::fx::{Rate, RateError, UsdRates};
use beerdata::numbeo::CountryPrice;
use beerdata::sync_datapoints::{
    check_prices, country_ids, datapoint_saved, existing_country_ids, match_prices,
    pending_datapoints, report_progress, upload_counts, CountryEntries, CountryEntry, CountryId,
    CraftState, DatapointEntries, DatapointEntry, DatapointRelations, MatchError, PrepareError,
    RelatedEntry, SavedDatapoint,
};

fn price(country: &str, price: f64, currency: &str, salary: Option<f64>) -> CountryPrice {
    CountryPrice {
        country: country.to_owned(),
        price: price.to_bits(),
        currency: currency.to_owned(),
        monthly_salary: salary.map(f64::to_bits),
    }
}

/// Every conversion succeeded.
fn ok(prices: &[CountryPrice]) -> Vec<bool> {
    vec![true; prices.len()]
}

fn rates() -> UsdRates {
    UsdRates {
        date: "2026-09-22".to_owned(),
        usd: [("usd", 1.0f64), ("eur", 0.8)]
            .iter()
            .map(|(code, value)| Rate {
                code: code.to_string(),
                bits: value.to_bits(),
            })
            .collect(),
    }
}

fn ids(list: &[(&str, i32)]) -> Vec<CountryId> {
    list.iter()
        .map(|(title, id)| CountryId { title: title.to_string(), id: *id })
        .collect()
}

fn related(ids: &[&str]) -> Vec<RelatedEntry> {
    ids.iter().map(|id| RelatedEntry { id: id.to_string() }).collect()
}

fn datapoints(id: &str, quarter: &[&str], country: &[&str]) -> DatapointEntries {
    DatapointEntries {
        entries: vec![DatapointRelations {
            id: id.to_owned(),
            quarter: related(quarter),
            country: related(country),
        }],
    }
}

#[test]
fn converts_local_price_and_monthly_net_salary_to_usd_hourly() {
    let prices = vec![price("Germany", 0.99, "EUR", Some(2932.68))];
    let ids = ids(&[("Germany", 42)]);

    let matched = match_prices(&prices, &ids, &rates(), &ok(&prices)).ok().unwrap();
    let datapoint = &matched[0];

    assert_eq!(datapoint.country_id, 42);
    assert_eq!(datapoint.source, 0);
    assert_eq!(f64::from_bits(datapoint.local_per_usd), 0.8);
    let source = &prices[datapoint.source];
    let local_per_usd = f64::from_bits(datapoint.local_per_usd);
    let price_usd = f64::from_bits(source.price) / local_per_usd;
    let wage_local = f64::from_bits(source.monthly_salary.unwrap()) / (40.0 * 52.0 / 12.0);
    let wage_usd = wage_local / local_per_usd;
    assert!((price_usd - 0.99 / 0.8).abs() < 1e-10);
    assert!((wage_local - 2932.68 / (40.0 * 52.0 / 12.0)).abs() < 1e-10);
    assert!((wage_usd - wage_local / 0.8).abs() < 1e-10);
    assert!((price_usd / wage_usd * 60.0 - 0.99 / wage_local * 60.0).abs() < 1e-10);
    match match_prices(&prices, &Vec::new(), &rates(), &ok(&prices)) {
        Err(MatchError::NoCountry { country }) => assert!(country.contains("Germany")),
        _ => panic!("expected a missing Craft country"),
    }
}

#[test]
fn skips_saved_datapoints_duplicate_prices_and_missing_salaries() {
    let existing = existing_country_ids(datapoints("10", &["4"], &["2"]), 4)
        .ok()
        .unwrap();
    let prices = vec![
        price("Germany", 0.99, "EUR", Some(2932.68)),
        price("France", 1.25, "EUR", Some(2000.0)),
        price("Samoa", 3.0, "WST", None),
    ];
    let ids = ids(&[("Germany", 2), ("France", 3), ("Samoa", 4)]);
    let matched = match_prices(&prices, &ids, &rates(), &ok(&prices)).ok().unwrap();
    assert_eq!(matched.len(), 2);

    let france = vec![price("France", 1.25, "EUR", Some(2000.0))];
    let france_twice = match_prices(&france, &ids, &rates(), &ok(&france)).ok().unwrap();
    let pending = pending_datapoints(matched.into_iter().chain(france_twice).collect(), &existing);

    assert_eq!(pending.len(), 1);
    assert_eq!(pending[0].country_id, 3);
    let germany = vec![price("Germany", 0.99, "EUR", Some(2932.68))];
    assert!(pending_datapoints(match_prices(&germany, &ids, &rates(), &ok(&germany)).ok().unwrap(), &existing)
        .is_empty());
}

#[test]
fn refuses_to_upload_when_existing_datapoints_cannot_be_identified() {
    assert!(existing_country_ids(datapoints("10", &["5"], &["2"]), 4).is_err());
    assert!(existing_country_ids(datapoints("10", &["4"], &[]), 4).is_err());
}

#[test]
fn each_datapoint_problem_has_its_own_error() {
    assert!(matches!(
        existing_country_ids(datapoints("10", &[], &["2"]), 4),
        Err(PrepareError::NotOneQuarter { .. })
    ));
    assert!(matches!(
        existing_country_ids(datapoints("10", &["4"], &["2", "3"]), 4),
        Err(PrepareError::NotOneCountry { .. })
    ));
    assert!(matches!(
        existing_country_ids(datapoints("10", &["x"], &["2"]), 4),
        Err(PrepareError::InvalidId { text }) if text == "x"
    ));
    assert!(matches!(
        existing_country_ids(datapoints("11", &["5"], &["2"]), 4),
        Err(PrepareError::OtherQuarter { id }) if id == "11"
    ));
    assert!(matches!(
        existing_country_ids(datapoints("10", &["4"], &["two"]), 4),
        Err(PrepareError::InvalidId { text }) if text == "two"
    ));
}

#[test]
fn existing_countries_are_listed_once() {
    let data = DatapointEntries {
        entries: vec![
            DatapointRelations { id: "1".into(), quarter: related(&["4"]), country: related(&["2"]) },
            DatapointRelations { id: "2".into(), quarter: related(&["4"]), country: related(&["2"]) },
            DatapointRelations { id: "3".into(), quarter: related(&["+4"]), country: related(&["-7"]) },
        ],
    };
    assert_eq!(existing_country_ids(data, 4).ok().unwrap(), [2, -7]);
}

#[test]
fn craft_countries_need_numeric_ids_and_unique_titles() {
    let entries = |list: &[(&str, &str)]| CountryEntries {
        entries: list
            .iter()
            .map(|(id, title)| CountryEntry { id: id.to_string(), title: title.to_string() })
            .collect(),
    };
    let ok = country_ids(entries(&[("2", "Germany"), ("3", "France")])).ok().unwrap();
    assert_eq!(ok.len(), 2);
    assert_eq!((ok[1].title.as_str(), ok[1].id), ("France", 3));
    assert!(matches!(
        country_ids(entries(&[("2", "Germany"), ("3", "Germany")])),
        Err(PrepareError::DuplicateCountry { title }) if title == "Germany"
    ));
    assert!(matches!(
        country_ids(entries(&[("2", "Germany"), ("9999999999", "France")])),
        Err(PrepareError::InvalidId { text }) if text == "9999999999"
    ));
    let state = CraftState::new(ok, vec![2]);
    assert_eq!(state.country_ids().len(), 2);
    assert_eq!(state.existing(), &vec![2]);
}

#[test]
fn missing_rate_stops_matching() {
    let prices = vec![
        price("Germany", 0.99, "EUR", Some(2932.68)),
        price("Samoa", 3.0, "WST", Some(900.0)),
    ];
    let ids = ids(&[("Germany", 2), ("Samoa", 4)]);
    match match_prices(&prices, &ids, &rates(), &ok(&prices)) {
        Err(MatchError::Rate { currency, error }) => {
            assert_eq!(currency, "WST");
            assert!(matches!(error, RateError::Missing));
        }
        _ => panic!("expected a missing rate"),
    }
    let bad = vec![
        price("Germany", 0.99, "EUR", Some(2932.68)),
        price("Austria", 1.0, "EUR", Some(2000.0)),
        price("Atlantis", 1.0, "EUR", Some(2000.0)),
    ];
    let ids_bad = vec![
        CountryId { title: "Germany".into(), id: 2 },
        CountryId { title: "Austria".into(), id: 5 },
    ];
    match match_prices(&bad, &ids_bad, &rates(), &vec![true, false, true]) {
        Err(MatchError::InvalidConversion { country }) => assert_eq!(country, "Austria"),
        _ => panic!("expected the failed conversion to come first"),
    }
    let without_salary = vec![price("Samoa", 3.0, "WST", None)];
    assert!(match_prices(&without_salary, &ids, &rates(), &ok(&without_salary)).ok().unwrap().is_empty());
}

#[test]
fn upload_bookkeeping() {
    assert!(check_prices(&Vec::new()).is_err());
    assert!(check_prices(&vec![price("Germany", 0.99, "EUR", None)]).is_ok());
    assert_eq!(upload_counts(10, 7, 4), (3, 3));
    assert!(report_progress(9, 25) && report_progress(24, 25));
    assert!(!report_progress(10, 25));
    assert!(datapoint_saved(&SavedDatapoint { entry: Some(DatapointEntry { id: "5".into() }) }));
    assert!(!datapoint_saved(&SavedDatapoint { entry: Some(DatapointEntry { id: "".into() }) }));
    assert!(!datapoint_saved(&SavedDatapoint { entry: None }));
}
