//! Creating Craft country entries.
use vstd::prelude::*;

use crate::text::same_text;

verus! {

/// A Craft country entry as Craft reports it after saving.
pub struct SavedEntry {
    pub title: String,
}

/// Craft's answer to saving a country.
pub struct SavedCountry {
    pub entry: Option<SavedEntry>,
}

/// Why countries cannot be created.
pub enum PushError {
    /// The country list is empty.
    NoCountries,
}

/// Fails when there are no countries to create.
pub fn check_countries(countries: &Vec<String>) -> (r: Result<(), PushError>)
    ensures
        r is Err <==> countries@.len() == 0,
{
    if countries.len() == 0 {
        Err(PushError::NoCountries)
    } else {
        Ok(())
    }
}

/// Craft saved `country` when it answers with an entry of exactly that title.
pub fn country_saved(saved: &SavedCountry, country: &str) -> (r: bool)
    ensures
        r == (saved.entry matches Some(e) && e.title@ == country@),
{
    match &saved.entry {
        Some(e) => same_text(e.title.as_str(), country),
        None => false,
    }
}

} // verus!
