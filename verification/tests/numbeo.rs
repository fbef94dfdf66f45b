use beerdata::numbeo::{
    beer_prices, cached_prices, check_countries, count_missing_salaries, is_beer_row,
    is_finished, is_usable_beer_row, numbeo_country, plan_run, rejected_beer_rows,
    sample_fields, ApifyCache, CacheError, CacheRow, CountryPrice, Phase, PriceError, PriceRow,
    RunError, RunOutcome, RunPlan,
};
use serde_json::Value;

fn text(v: &Value, key: &str) -> Option<String> {
    v.get(key).and_then(Value::as_str).map(str::to_owned)
}

fn number(v: &Value, key: &str) -> Option<f64> {
    v.get(key).and_then(Value::as_f64)
}

fn cache_row(raw: Value) -> CacheRow {
    let parsed = raw.as_object().map(|_| PriceRow {
        kind: text(&raw, "type"),
        country: text(&raw, "country"),
        category_group: text(&raw, "categoryGroup"),
        item_name: text(&raw, "itemName"),
        avg_price: number(&raw, "avgPrice").map(f64::to_bits),
        lowest_price: number(&raw, "lowestPrice").map(f64::to_bits),
        highest_price: number(&raw, "highestPrice").map(f64::to_bits),
        currency: text(&raw, "currency"),
    });
    let keys = raw.as_object().map(|o| o.keys().cloned().collect());
    CacheRow { raw, parsed, keys }
}

fn rows(json: &str) -> Vec<CacheRow> {
    serde_json::from_str::<Vec<Value>>(json)
        .unwrap()
        .into_iter()
        .map(cache_row)
        .collect()
}

fn names(list: &[&str]) -> Vec<String> {
    list.iter().map(|s| s.to_string()).collect()
}

fn new_cache(countries: &[&str], active: Option<&str>) -> ApifyCache {
    ApifyCache {
        countries: names(countries),
        completed: Vec::new(),
        imported_runs: Vec::new(),
        active_run_id: active.map(str::to_owned),
        rows: Vec::new(),
    }
}

#[test]
fn rejects_empty_countries_before_starting_actor() {
    assert!(matches!(check_countries(&Vec::new()), Err(RunError::NoCountries)));
    assert!(check_countries(&names(&["Germany"])).is_ok());
}

#[test]
fn caches_partial_results_and_only_retries_uncovered_countries() {
    let countries = names(&["Germany", "France"]);
    let mut cache = new_cache(&["Germany", "France"], Some("aborted-run"));
    let rows = rows(r#"[
        {"type":"country_price","country":"Germany","categoryGroup":"Markets","itemName":"Domestic Beer (0.5 Liter Bottle)","avgPrice":0.99,"currency":"EUR"},
        {"type":"country_price","country":"France","categoryGroup":"Markets","itemName":"Milk","avgPrice":1.20,"currency":"EUR"},
        {"other":"unrecognized actor field"}
    ]"#);

    cache.record("aborted-run", rows, None);
    assert_eq!(cache.pending(), ["France"]);
    assert_eq!(cache.rows.len(), 3);
    assert_eq!(cache.rows[2].raw["other"], "unrecognized actor field");

    let mut loaded = match ApifyCache::load(Some(cache), &countries) {
        Ok(loaded) => loaded,
        Err(_) => panic!("same country list was refused"),
    };
    assert_eq!(loaded.active_run_id.as_deref(), Some("aborted-run"));
    let wrong = new_cache(&["Germany", "France"], None);
    assert!(matches!(
        ApifyCache::load(Some(wrong), &names(&["Germany"])),
        Err(CacheError::DifferentCountries)
    ));

    loaded.active_run_id = None;
    assert!(matches!(plan_run(&loaded, true, None, Phase::Loaded), RunPlan::UseCache));
    let partial = cached_prices(&loaded).ok().unwrap();
    assert_eq!(partial.len(), 1);

    loaded.record("finished-run", Vec::new(), Some(&names(&["France"])));
    assert!(loaded.pending().is_empty());
    assert_eq!(cached_prices(&loaded).ok().unwrap().len(), 1);
}

#[test]
fn maps_numbeo_page_titles_and_rejects_inconsistent_prices() {
    let raw = rows(r#"[
        {"type":"country_price","country":"Cost of Living in Brazil","categoryGroup":"Markets","itemName":"Domestic Beer (0.5 Liter Bottle)","avgPrice":6.81,"lowestPrice":4,"highestPrice":12,"currency":"BRL"},
        {"type":"country_price","country":"Cost of Living in Bhutan","categoryGroup":"Markets","itemName":"Domestic Beer (0.5 Liter Bottle)","avgPrice":0.77,"lowestPrice":35,"highestPrice":136.68,"currency":"BTN"}
    ]"#);
    let mut cache = new_cache(&["Brazil", "Bhutan"], None);

    cache.record("aborted-run", raw, None);
    assert_eq!(cache.pending(), ["Bhutan"]);
    assert_eq!(
        cached_prices(&cache).ok().unwrap(),
        vec![CountryPrice {
            country: "Brazil".to_owned(),
            price: 6.81f64.to_bits(),
            currency: "BRL".to_owned(),
            monthly_salary: None,
        }]
    );
}

#[test]
fn selects_grocery_beer_from_country_prices_only() {
    let rows = rows(r#"[
        {"type":"country_price","country":"Germany","categoryGroup":"Markets","itemName":"Domestic Beer (0.5 Liter Bottle)","avgPrice":0.99,"currency":"EUR"},
        {"type":"country_price","country":"Germany","categoryGroup":"Salaries And Financing","itemName":"Average Monthly Net Salary (After Tax)","avgPrice":2932.68,"currency":"EUR"},
        {"type":"country_price","country":"Germany","categoryGroup":"Salaries And Financing","itemName":"Average Monthly Net Salary (After Tax)","avgPrice":4000,"currency":"USD"},
        {"type":"city_price","country":"Iceland","categoryGroup":"Salaries And Financing","itemName":"Average Monthly Net Salary (After Tax)","avgPrice":3000,"currency":"ISK"},
        {"type":"country_price","country":"Germany","categoryGroup":"Restaurants","itemName":"Domestic Beer (0.5 Liter Bottle)","avgPrice":4.50,"currency":"EUR"},
        {"type":"city_price","city":"Berlin","categoryGroup":"Markets","itemName":"Domestic Beer (0.5 Liter Bottle)","avgPrice":1.25,"currency":"EUR"},
        {"type":"country_price","country":"Iceland","categoryGroup":"Markets","itemName":"Domestic Beer (0.5 Liter Bottle)","avgPrice":null,"currency":"ISK"}
    ]"#);

    assert_eq!(
        beer_prices(&rows),
        vec![CountryPrice {
            country: "Germany".to_owned(),
            price: 0.99f64.to_bits(),
            currency: "EUR".to_owned(),
            monthly_salary: Some(2932.68f64.to_bits()),
        }]
    );
}

#[test]
fn later_salary_for_the_same_country_and_currency_wins() {
    let rows = rows(r#"[
        {"type":"country_price","country":"Cost of Living in Peru","categoryGroup":"Salaries And Financing","itemName":"average monthly net salary (after tax)","avgPrice":1000,"currency":"PEN"},
        {"type":"country_price","country":"Peru","categoryGroup":"Markets","itemName":"DOMESTIC BEER (0.5 LITER BOTTLE)","avgPrice":5,"currency":"PEN"},
        {"type":"country_price","country":"Peru","categoryGroup":"Salaries And Financing","itemName":"Average Monthly Net Salary (After Tax)","avgPrice":1500,"currency":"PEN"},
        {"type":"country_price","country":"Peru","categoryGroup":"Salaries And Financing","itemName":"Average Monthly Net Salary (After Tax)","avgPrice":0,"currency":"PEN"}
    ]"#);
    let prices = beer_prices(&rows);
    assert_eq!(prices.len(), 1);
    assert_eq!(prices[0].monthly_salary, Some(1500f64.to_bits()));
    assert_eq!(count_missing_salaries(&prices), 0);
}

#[test]
fn beer_rows_outside_their_range_are_counted_as_rejected() {
    let rows = rows(r#"[
        {"type":"country_price","country":"Chile","categoryGroup":"Markets","itemName":"Domestic Beer (0.5 Liter Bottle)","avgPrice":9,"highestPrice":8,"currency":"CLP"},
        {"type":"country_price","country":"Chile","categoryGroup":"Markets","itemName":"Domestic Beer (0.5 Liter Bottle)","avgPrice":7,"currency":""},
        {"type":"country_price","country":"Chile","categoryGroup":"Markets","itemName":"Domestic Beer (0.5 Liter Bottle)","avgPrice":7,"currency":"CLP"}
    ]"#);
    assert_eq!(rejected_beer_rows(&rows), 2);
    let parsed: Vec<&PriceRow> = rows.iter().map(|r| r.parsed.as_ref().unwrap()).collect();
    assert!(is_beer_row(parsed[0]) && !is_usable_beer_row(parsed[0]));
    assert!(is_beer_row(parsed[1]) && !is_usable_beer_row(parsed[1]));
    assert!(is_usable_beer_row(parsed[2]));
    let prices = beer_prices(&rows);
    assert_eq!(prices.len(), 1);
    assert_eq!(count_missing_salaries(&prices), 1);
}

#[test]
fn page_titles_are_stripped_once() {
    assert_eq!(numbeo_country("Cost of Living in Brazil"), "Brazil");
    assert_eq!(numbeo_country("Brazil"), "Brazil");
    assert_eq!(numbeo_country("cost of living in Brazil"), "cost of living in Brazil");
    assert_eq!(numbeo_country("Cost of Living in "), "");
}

#[test]
fn unusable_cache_reports_its_first_row_fields() {
    let mut cache = new_cache(&["Germany"], None);
    cache.record("run", rows(r#"[{"b":1,"a":2}]"#), None);
    assert_eq!(sample_fields(&cache.rows), "a, b");
    match cached_prices(&cache) {
        Err(PriceError::NoBeerPrices { rows, fields }) => {
            assert_eq!(rows, 1);
            assert_eq!(fields, "a, b");
        }
        _ => panic!("expected no prices"),
    }
    assert!(matches!(plan_run(&cache, false, None, Phase::Loaded), RunPlan::NoBeerMatches));
    let empty: Vec<CacheRow> = Vec::new();
    assert_eq!(sample_fields(&empty), "not an object");
    assert_eq!(sample_fields(&rows("[3]")), "not an object");
}

#[test]
fn prices_for_countries_not_requested_are_refused() {
    let mut cache = new_cache(&["Germany"], None);
    cache.record("run", rows(r#"[
        {"type":"country_price","country":"Germany","categoryGroup":"Markets","itemName":"Domestic Beer (0.5 Liter Bottle)","avgPrice":0.99,"currency":"EUR"},
        {"type":"country_price","country":"Austria","categoryGroup":"Markets","itemName":"Domestic Beer (0.5 Liter Bottle)","avgPrice":1.1,"currency":"EUR"}
    ]"#), None);
    match cached_prices(&cache) {
        Err(PriceError::UnknownCountry { country }) => assert_eq!(country, "Austria"),
        _ => panic!("expected an unknown country"),
    }
}

#[test]
fn runs_are_imported_once() {
    let mut cache = new_cache(&["Germany"], None);
    cache.record("run-1", Vec::new(), None);
    cache.record("run-1", Vec::new(), None);
    cache.record("run-2", Vec::new(), None);
    assert_eq!(cache.imported_runs, ["run-1", "run-2"]);
    cache.record("run-2", rows(r#"[{"x":1}]"#), None);
    assert!(!matches!(
        plan_run(&cache, false, Some("run-1"), Phase::Loaded),
        RunPlan::Import(_)
    ));
    match plan_run(&cache, false, Some("run-3"), Phase::Loaded) {
        RunPlan::Import(id) => assert_eq!(id, "run-3"),
        _ => panic!("expected an import"),
    }
    assert!(!matches!(
        plan_run(&cache, false, Some("run-3"), Phase::Imported { recovered: false }),
        RunPlan::Import(_)
    ));
}

#[test]
fn planning_follows_the_cache() {
    let cache = new_cache(&["Germany", "France"], None);
    match plan_run(&cache, false, None, Phase::Loaded) {
        RunPlan::Start(pending) => assert_eq!(pending, ["Germany", "France"]),
        _ => panic!("expected a new run"),
    }
    assert!(matches!(plan_run(&cache, true, None, Phase::Loaded), RunPlan::UseCache));
    assert!(matches!(plan_run(&cache, false, None, Phase::Recovered), RunPlan::RecoveredOnly));

    let active = new_cache(&["Germany"], Some("run-7"));
    match plan_run(&active, true, None, Phase::Loaded) {
        RunPlan::Resume(id) => assert_eq!(id, "run-7"),
        _ => panic!("expected the active run to be resumed"),
    }

    let mut done = new_cache(&["Germany"], None);
    done.record("run", Vec::new(), Some(&names(&["Germany"])));
    assert!(matches!(plan_run(&done, false, None, Phase::Imported { recovered: false }), RunPlan::UseCache));
}

#[test]
fn recovery_takes_the_last_imported_run() {
    let mut cache = new_cache(&["Germany"], None);
    assert!(matches!(plan_run(&cache, false, None, Phase::Loaded), RunPlan::Start(_)));
    cache.imported_runs = names(&["old", "newer"]);
    cache.completed = names(&["Germany"]);
    match plan_run(&cache, false, Some("other"), Phase::Loaded) {
        RunPlan::Recover(id) => assert_eq!(id, "newer"),
        _ => panic!("expected the last imported run to be taken up again"),
    }
    cache.completed = Vec::new();
    assert!(!matches!(
        plan_run(&cache, false, None, Phase::Recovered),
        RunPlan::Recover(_)
    ));
    assert!(matches!(
        cache.recover("newer", Vec::new()),
        Err(RunError::NoRecoveredRows)
    ));
    assert!(cache.recover("newer", rows(r#"[{"x":1}]"#)).is_ok());
    assert_eq!(cache.rows.len(), 1);
    assert!(matches!(
        plan_run(&cache, false, None, Phase::Recovered),
        RunPlan::RecoveredOnly
    ));
    assert!(!matches!(
        plan_run(&cache, false, None, Phase::Loaded),
        RunPlan::Recover(_)
    ));
    cache.start_run("fresh");
    assert_eq!(cache.active_run_id.as_deref(), Some("fresh"));
}

#[test]
fn finished_runs_are_recorded_and_forgotten() {
    assert!(is_finished("SUCCEEDED") && is_finished("FAILED"));
    assert!(is_finished("TIMED-OUT") && is_finished("ABORTED"));
    assert!(!is_finished("RUNNING") && !is_finished("succeeded"));

    let requested = names(&["Germany", "France"]);
    let mut cache = new_cache(&["Germany", "France"], Some("run"));
    assert!(matches!(
        cache.finish_run("run", "SUCCEEDED", Vec::new(), &requested, false),
        Err(RunError::EmptySucceededRun)
    ));
    assert_eq!(cache.active_run_id.as_deref(), Some("run"));

    let beer = r#"[{"type":"country_price","country":"Germany","categoryGroup":"Markets","itemName":"Domestic Beer (0.5 Liter Bottle)","avgPrice":0.99,"currency":"EUR"}]"#;
    assert!(matches!(
        cache.finish_run("run", "ABORTED", rows(beer), &requested, false),
        Ok(RunOutcome::Unfinished)
    ));
    assert!(cache.active_run_id.is_none());
    assert_eq!(cache.pending(), ["France"]);

    let mut cached = new_cache(&["Germany", "France"], Some("run"));
    assert!(matches!(
        cached.finish_run("run", "FAILED", rows(beer), &requested, true),
        Ok(RunOutcome::UseCache)
    ));

    let mut ok = new_cache(&["Germany", "France"], Some("run"));
    assert!(matches!(
        ok.finish_run("run", "SUCCEEDED", rows(beer), &requested, false),
        Ok(RunOutcome::UseCache)
    ));
    assert!(ok.pending().is_empty());
}

#[test]
fn completed_countries_stay_completed() {
    let mut cache = new_cache(&["Germany", "France", "Spain"], None);
    cache.record("first", Vec::new(), Some(&names(&["Spain", "Germany", "Atlantis"])));
    assert_eq!(cache.completed, ["Germany", "Spain"]);
    cache.record("second", rows(r#"[{"other":1}]"#), None);
    assert_eq!(cache.completed, ["Germany", "Spain"]);
    assert_eq!(cache.pending(), ["France"]);
    cache.update_completed(None);
    assert_eq!(cache.completed, ["Germany", "Spain"]);
}

#[test]
fn range_checks_follow_float_comparison() {
    let nan = f64::NAN;
    let cases: [(f64, Option<f64>, Option<f64>); 9] = [
        (5.0, Some(5.0), Some(5.0)),
        (5.0, Some(-1.0), None),
        (5.0, Some(-0.0), Some(f64::INFINITY)),
        (5.0, Some(nan), None),
        (5.0, None, Some(nan)),
        (5.0, None, Some(-0.0)),
        (5.0, Some(f64::INFINITY), None),
        (f64::INFINITY, None, None),
        (-5.0, Some(-10.0), Some(0.0)),
    ];
    for (price, low, high) in cases {
        let row = PriceRow {
            kind: Some("country_price".into()),
            country: Some("Chile".into()),
            category_group: Some("Markets".into()),
            item_name: Some("Domestic Beer (0.5 Liter Bottle)".into()),
            avg_price: Some(price.to_bits()),
            lowest_price: low.map(f64::to_bits),
            highest_price: high.map(f64::to_bits),
            currency: Some("CLP".into()),
        };
        let expected = price.is_finite()
            && price > 0.0
            && low.is_none_or(|l| price >= l)
            && high.is_none_or(|h| price <= h);
        assert_eq!(is_usable_beer_row(&row), expected, "{price} {low:?} {high:?}");
    }
}
