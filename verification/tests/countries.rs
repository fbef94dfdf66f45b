use beerdata::countries::{countries_from_page, country_names, CountriesError};

#[test]
fn extracts_numbeo_country_options() {
    let html = r#"<select id="country">
            <option value="">---Select Country---</option>
            <option value="Germany">Germany</option>
            <option value="Trinidad And Tobago">Trinidad And Tobago</option>
        </select>"#;

    assert_eq!(country_names(html), ["Germany", "Trinidad And Tobago"]);
}

#[test]
fn page_without_country_selector_is_refused() {
    let html = r#"<select id="city"><option value="Berlin">Berlin</option></select>"#;
    assert!(country_names(html).is_empty());
    assert!(matches!(countries_from_page(html), Err(CountriesError::NoCountries)));
}

#[test]
fn options_without_value_are_skipped() {
    let html = r#"<select id="country"><option>Nowhere</option><option value="Samoa">Samoa</option></select>"#;
    assert_eq!(countries_from_page(html).ok().unwrap(), ["Samoa"]);
}
