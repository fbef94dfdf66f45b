//! The country list of Numbeo's cost-of-living country selector.
use vstd::prelude::*;

use crate::text::texts;

verus! {

/// For an HTML document, a CSS selector and an attribute name: the attribute of each
/// element that the selector matches (`None` for an element without it), in the order in
/// which the `scraper` crate's `select` yields the matches; `None` when `scraper` cannot
/// parse the selector.
pub uninterp spec fn selected_attributes(
    html: Seq<char>,
    selector: Seq<char>,
    attribute: Seq<char>,
) -> Option<Seq<Option<Seq<char>>>>;

/// Parses `html` with `scraper::Html::parse_document`, parses `selector` with
/// `scraper::Selector::parse`, and collects `attr(attribute)` of each element that
/// `select` yields. What the parser and the selector engine find is named, not stated:
/// the contract ties the result to the three arguments.
#[verifier::external_body]
fn select_attributes(html: &str, selector: &str, attribute: &str) -> (r: Option<
    Vec<Option<String>>,
>)
    ensures
        r.deep_view() == selected_attributes(html@, selector@, attribute@),
{
    let selector = scraper::Selector::parse(selector).ok()?;
    let document = scraper::Html::parse_document(html);
    let mut values = Vec::new();
    for element in document.select(&selector) {
        values.push(element.value().attr(attribute).map(str::to_owned));
    }
    Some(values)
}

/// The countries a page offers: the non-empty `value` attributes of the options of its
/// country selector (`select#country option`), in order (none when the selector could not be parsed, which
/// `scraper` does for this selector).
pub open spec fn page_countries(html: Seq<char>) -> Seq<Seq<char>> {
    match selected_attributes(html, "select#country option"@, "value"@) {
        Some(values) => named_options(values),
        None => Seq::empty(),
    }
}

/// The non-empty option values, in order.
pub open spec fn named_options(values: Seq<Option<Seq<char>>>) -> Seq<Seq<char>>
    decreases values.len(),
{
    if values.len() == 0 {
        Seq::empty()
    } else {
        let prev = named_options(values.drop_last());
        match values.last() {
            Some(v) => if v.len() > 0 {
                prev.push(v)
            } else {
                prev
            },
            None => prev,
        }
    }
}

/// Why a page gives no country list.
pub enum CountriesError {
    /// The selector lists no country.
    NoCountries,
}

/// The country names that the page's country selector offers: every non-empty option
/// value, in order.
pub fn country_names(html: &str) -> (r: Vec<String>)
    ensures
        texts(r@) == page_countries(html@),
{
    let values = match select_attributes(html, "select#country option", "value") {
        Some(values) => values,
        None => {
            return Vec::new();
        },
    };
    let ghost vals = selected_attributes(html@, "select#country option"@, "value"@)->0;
    let n = values.len();
    let mut names: Vec<String> = Vec::new();
    let mut i: usize = 0;
    while i < n
        invariant
            n == values@.len(),
            values.deep_view() == vals,
            i <= n,
            texts(names@) == named_options(vals.take(i as int)),
        decreases n - i,
    {
        assert(vals.take(i + 1).drop_last() =~= vals.take(i as int));
        assert(vals[i as int] == values@[i as int].deep_view());
        match &values[i] {
            Some(v) => {
                if !v.as_str().is_empty() {
                    let ghost before = names@;
                    names.push(v.clone());
                    assert(texts(names@) =~= texts(before).push(v@));
                }
            },
            None => {},
        }
        i = i + 1;
    }
    assert(vals.take(n as int) =~= vals);
    names
}

/// The country list of a Numbeo page; a page without countries is refused.
pub fn countries_from_page(html: &str) -> (r: Result<Vec<String>, CountriesError>)
    ensures
        page_countries(html@).len() == 0 ==> r is Err,
        page_countries(html@).len() > 0 ==> (r matches Ok(names) && texts(names@)
            == page_countries(html@)),
{
    let names = country_names(html);
    if names.len() == 0 {
        Err(CountriesError::NoCountries)
    } else {
        Ok(names)
    }
}

} // verus!
