use beerdata::push_countries::{check_countries, country_saved, SavedCountry, SavedEntry};
use beerdata::text::{eq_ignore_ascii_case, join, parse_i32, to_ascii_lowercase};

#[test]
fn parses_i32_like_std() {
    for s in [
        "0", "42", "+7", "-0", "-2147483648", "2147483647", "2147483648", "-2147483649", "", "-",
        "+", " 1", "1 ", "1_000", "٣", "00012", "99999999999999999999",
    ] {
        assert_eq!(parse_i32(s), s.parse::<i32>().ok(), "{s:?}");
    }
}

#[test]
fn ascii_case_helpers_match_std() {
    for (a, b) in [("EUR", "eur"), ("Ärger", "äRGER"), ("Straße", "STRASSE"), ("x", "xy")] {
        assert_eq!(eq_ignore_ascii_case(a, b), a.eq_ignore_ascii_case(b));
        assert_eq!(to_ascii_lowercase(a), a.to_ascii_lowercase());
    }
    assert_eq!(join(&vec!["a".into(), "b".into(), "c".into()], ", "), "a, b, c");
    assert_eq!(join(&Vec::new(), ", "), "");
}

#[test]
fn countries_are_saved_under_their_own_title() {
    assert!(check_countries(&Vec::new()).is_err());
    assert!(check_countries(&vec!["Germany".into()]).is_ok());
    let saved = SavedCountry { entry: Some(SavedEntry { title: "Germany".into() }) };
    assert!(country_saved(&saved, "Germany"));
    assert!(!country_saved(&saved, "germany"));
    assert!(!country_saved(&SavedCountry { entry: None }, "Germany"));
}

