//! Craft datapoints for one quarter: reading Craft's countries and existing datapoints,
//! matching Numbeo prices to Craft countries, and choosing which datapoints to create.
use vstd::prelude::*;

use crate::fx::{RateError, UsdRates};
use crate::numbeo::CountryPrice;
use crate::text::{parse_i32, parsed_i32, same_text};

verus! {

/// A Craft country entry with its id as Craft writes it.
pub struct CountryEntry {
    pub id: String,
    pub title: String,
}

/// The Craft country entries.
pub struct CountryEntries {
    pub entries: Vec<CountryEntry>,
}

/// A related entry, named by its id.
pub struct RelatedEntry {
    pub id: String,
}

/// A Craft datapoint with the quarters and countries it relates to.
pub struct DatapointRelations {
    pub id: String,
    pub quarter: Vec<RelatedEntry>,
    pub country: Vec<RelatedEntry>,
}

/// The Craft datapoints of a quarter.
pub struct DatapointEntries {
    pub entries: Vec<DatapointRelations>,
}

/// A datapoint that Craft reports as saved.
pub struct DatapointEntry {
    pub id: String,
}

/// Craft's answer to saving a datapoint.
pub struct SavedDatapoint {
    pub entry: Option<DatapointEntry>,
}

/// A Craft country title with its numeric id.
pub struct CountryId {
    pub title: String,
    pub id: i32,
}

/// What was read from Craft before a scrape: the id of each country and the countries
/// that already have a datapoint for the quarter.
pub struct CraftState {
    country_ids: Vec<CountryId>,
    existing: Vec<i32>,
}

/// No two Craft countries share a title, as in a map keyed by title.
pub open spec fn titles_distinct(ids: Seq<CountryId>) -> bool {
    forall|i: int, j: int|
        0 <= i < j < ids.len() ==> (#[trigger] ids[i]).title@ != (#[trigger] ids[j]).title@
}

/// A price matched to a Craft country: the position of the price in its list, the
/// country id, and the bit pattern of the currency's units per USD.
#[derive(Clone, Copy)]
pub struct Match {
    pub source: usize,
    pub country_id: i32,
    pub local_per_usd: u64,
}

/// Why Craft's answers cannot be used.
pub enum PrepareError {
    /// An id that is not a decimal `i32`.
    InvalidId { text: String },
    /// Two Craft countries have the same title.
    DuplicateCountry { title: String },
    /// A datapoint does not relate to exactly one quarter.
    NotOneQuarter { id: String },
    /// A datapoint does not relate to exactly one country.
    NotOneCountry { id: String },
    /// A datapoint belongs to another quarter.
    OtherQuarter { id: String },
}

/// Why prices cannot be matched to datapoints.
pub enum MatchError {
    /// No Craft country has the price's country as its title.
    NoCountry { country: String },
    /// The price's currency has no usable rate.
    Rate { currency: String, error: RateError },
    /// Converting the price to USD gave a price that is not finite, or a wage that is not
    /// finite and above zero.
    InvalidConversion { country: String },
}

/// Why an upload cannot go on.
pub enum UploadError {
    /// There are no prices to upload.
    NoPrices,
}

/// The first `n` country entries have decimal ids and pairwise different titles.
pub open spec fn country_entries_ok_upto(entries: Seq<CountryEntry>, n: int) -> bool {
    &&& forall|j: int| 0 <= j < n ==> (#[trigger] parsed_i32(entries[j].id@)) is Some
    &&& forall|j: int, k: int|
        0 <= j < k < n ==> (#[trigger] entries[j]).title@ != (#[trigger] entries[k]).title@
}

/// The country a datapoint of quarter `quarter_id` is for, when its relations are
/// exactly one quarter, that quarter, and exactly one country with a decimal id.
pub open spec fn datapoint_country(e: DatapointRelations, quarter_id: i32) -> Option<i32> {
    if e.quarter@.len() == 1 && e.country@.len() == 1 && parsed_i32(e.quarter@[0].id@) == Some(
        quarter_id,
    ) {
        parsed_i32(e.country@[0].id@)
    } else {
        None
    }
}

/// `err` is the error reported for a datapoint that cannot be identified.
pub open spec fn datapoint_error(e: DatapointRelations, quarter_id: i32, err: PrepareError) -> bool {
    if e.quarter@.len() != 1 {
        err matches PrepareError::NotOneQuarter { id } && id@ == e.id@
    } else if e.country@.len() != 1 {
        err matches PrepareError::NotOneCountry { id } && id@ == e.id@
    } else if parsed_i32(e.quarter@[0].id@) is None {
        err matches PrepareError::InvalidId { text } && text@ == e.quarter@[0].id@
    } else if parsed_i32(e.quarter@[0].id@) != Some(quarter_id) {
        err matches PrepareError::OtherQuarter { id } && id@ == e.id@
    } else {
        err matches PrepareError::InvalidId { text } && text@ == e.country@[0].id@
    }
}

/// The id of the first Craft country titled `title`.
pub open spec fn id_for(ids: Seq<CountryId>, title: Seq<char>) -> Option<i32>
    decreases ids.len(),
{
    if ids.len() == 0 {
        None
    } else if ids[0].title@ == title {
        Some(ids[0].id)
    } else {
        id_for(ids.drop_first(), title)
    }
}

/// Price `p` has a Craft country and, when it has a salary, a usable rate with which its
/// conversion to USD succeeded (`converted`).
pub open spec fn price_matches(
    p: CountryPrice,
    ids: Seq<CountryId>,
    rates: UsdRates,
    converted: bool,
) -> bool {
    &&& id_for(ids, p.country@) is Some
    &&& p.monthly_salary is Some ==> rates.spec_local_per_usd(p.currency@) is Ok && converted
}

/// The matches of the first `n` prices: one for each price with a salary.
pub open spec fn matched_upto(
    prices: Seq<CountryPrice>,
    ids: Seq<CountryId>,
    rates: UsdRates,
    n: int,
) -> Seq<Match>
    decreases n,
{
    if n <= 0 {
        Seq::empty()
    } else {
        let prev = matched_upto(prices, ids, rates, n - 1);
        let p = prices[n - 1];
        if p.monthly_salary is Some {
            prev.push(
                Match {
                    source: (n - 1) as usize,
                    country_id: id_for(ids, p.country@)->0,
                    local_per_usd: rates.spec_local_per_usd(p.currency@)->Ok_0,
                },
            )
        } else {
            prev
        }
    }
}

/// The country ids of a sequence of matches.
pub open spec fn match_ids(s: Seq<Match>) -> Seq<i32> {
    s.map_values(|d: Match| d.country_id)
}

/// The matches among the first `n` that are new: their country has no datapoint yet and
/// no earlier match is for the same country.
pub open spec fn new_datapoints_upto(matched: Seq<Match>, existing: Seq<i32>, n: int) -> Seq<
    Match,
>
    decreases n,
{
    if n <= 0 {
        Seq::empty()
    } else {
        let prev = new_datapoints_upto(matched, existing, n - 1);
        let d = matched[n - 1];
        if existing.contains(d.country_id) || match_ids(prev).contains(d.country_id) {
            prev
        } else {
            prev.push(d)
        }
    }
}

/// The id of the Craft country titled `title`.
fn find_country_id(ids: &Vec<CountryId>, title: &String) -> (r: Option<i32>)
    ensures
        r == id_for(ids@, title@),
{
    let n = ids.len();
    let mut i: usize = 0;
    assert(ids@.skip(0) =~= ids@);
    while i < n
        invariant
            n == ids@.len(),
            i <= n,
            id_for(ids@, title@) == id_for(ids@.skip(i as int), title@),
        decreases n - i,
    {
        assert(ids@.skip(i as int).drop_first() =~= ids@.skip(i + 1));
        assert(ids@.skip(i as int)[0] == ids@[i as int]);
        if same_text(ids[i].title.as_str(), title.as_str()) {
            return Some(ids[i].id);
        }
        i = i + 1;
    }
    assert(ids@.skip(n as int).len() == 0);
    None
}

/// Whether `v` holds `x`.
fn contains_id(v: &Vec<i32>, x: i32) -> (r: bool)
    ensures
        r == v@.contains(x),
{
    let n = v.len();
    let mut i: usize = 0;
    while i < n
        invariant
            n == v@.len(),
            i <= n,
            forall|j: int| 0 <= j < i ==> v@[j] != x,
        decreases n - i,
    {
        if v[i] == x {
            return true;
        }
        i = i + 1;
    }
    false
}

/// The Craft country ids by title; every id must be a decimal `i32` and every title
/// must occur once. The first entry that breaks a rule decides the error.
pub fn country_ids(data: CountryEntries) -> (r: Result<Vec<CountryId>, PrepareError>)
    ensures
        ({
            let e = data.entries@;
            &&& r is Ok <==> country_entries_ok_upto(e, e.len() as int)
            &&& match r {
                Ok(ids) => ids@.len() == e.len() && titles_distinct(ids@) && forall|i: int|
                    0 <= i < e.len() ==> (#[trigger] ids@[i]).title@ == e[i].title@ && Some(
                        ids@[i].id,
                    ) == parsed_i32(e[i].id@),
                Err(PrepareError::InvalidId { text }) => exists|i: int|
                    0 <= i < e.len() && country_entries_ok_upto(e, i) && parsed_i32(e[i].id@)
                        is None && text@ == e[i].id@,
                Err(PrepareError::DuplicateCountry { title }) => exists|i: int|
                    0 <= i < e.len() && country_entries_ok_upto(e, i) && parsed_i32(e[i].id@)
                        is Some && (exists|j: int| 0 <= j < i && e[j].title@ == e[i].title@)
                        && title@ == e[i].title@,
                Err(_) => false,
            }
        }),
{
    let ghost e = data.entries@;
    let n = data.entries.len();
    let mut ids: Vec<CountryId> = Vec::new();
    let mut i: usize = 0;
    while i < n
        invariant
            n == e.len(),
            e == data.entries@,
            i <= n,
            country_entries_ok_upto(e, i as int),
            ids@.len() == i,
            forall|k: int|
                0 <= k < i ==> (#[trigger] ids@[k]).title@ == e[k].title@ && Some(ids@[k].id)
                    == parsed_i32(e[k].id@),
        decreases n - i,
    {
        let entry = &data.entries[i];
        let id = match parse_i32(entry.id.as_str()) {
            Some(id) => id,
            None => {
                assert(!country_entries_ok_upto(e, e.len() as int)) by {
                    assert(parsed_i32(e[i as int].id@) is None);
                }
                return Err(PrepareError::InvalidId { text: entry.id.clone() });
            },
        };
        let mut j: usize = 0;
        while j < i
            invariant
                j <= i,
                i < n,
                n == e.len(),
                e == data.entries@,
                ids@.len() == i,
                country_entries_ok_upto(e, i as int),
                entry.title@ == e[i as int].title@,
                parsed_i32(e[i as int].id@) is Some,
                forall|k: int|
                    0 <= k < i ==> (#[trigger] ids@[k]).title@ == e[k].title@ && Some(ids@[k].id)
                        == parsed_i32(e[k].id@),
                forall|k: int| 0 <= k < j ==> ids@[k].title@ != entry.title@,
            decreases i - j,
        {
            if same_text(ids[j].title.as_str(), entry.title.as_str()) {
                assert(ids@[j as int].title@ == e[j as int].title@);
                assert(!country_entries_ok_upto(e, e.len() as int)) by {
                    assert(e[j as int].title@ == e[i as int].title@);
                }
                return Err(PrepareError::DuplicateCountry { title: entry.title.clone() });
            }
            j = j + 1;
        }
        let ghost before = ids@;
        ids.push(CountryId { title: entry.title.clone(), id });
        assert forall|a: int, b: int| 0 <= a < b < i + 1 implies (#[trigger] e[a]).title@ != (
        #[trigger] e[b]).title@ by {
            if b == i {
                assert(before[a].title@ == e[a].title@);
            }
        }
        assert forall|k: int| 0 <= k < i + 1 implies (#[trigger] parsed_i32(e[k].id@)) is Some by {
            if k < i {
                assert(Some(before[k].id) == parsed_i32(e[k].id@));
            }
        }
        i = i + 1;
    }
    Ok(ids)
}

/// The countries that already have a datapoint for the quarter. Every datapoint must
/// relate to exactly one quarter, this one, and to exactly one country, with decimal ids;
/// the first datapoint that breaks a rule decides the error.
pub fn existing_country_ids(data: DatapointEntries, quarter_id: i32) -> (r: Result<
    Vec<i32>,
    PrepareError,
>)
    ensures
        ({
            let e = data.entries@;
            &&& r is Ok <==> forall|i: int|
                0 <= i < e.len() ==> (#[trigger] datapoint_country(e[i], quarter_id)) is Some
            &&& match r {
                Ok(ids) => ids@.no_duplicates() && forall|x: i32|
                    ids@.contains(x) <==> exists|i: int|
                        0 <= i < e.len() && #[trigger] datapoint_country(e[i], quarter_id) == Some(
                            x,
                        ),
                Err(err) => exists|i: int|
                    0 <= i < e.len() && (forall|j: int|
                        0 <= j < i ==> (#[trigger] datapoint_country(e[j], quarter_id)) is Some)
                        && datapoint_country(e[i], quarter_id) is None && datapoint_error(
                        e[i],
                        quarter_id,
                        err,
                    ),
            }
        }),
{
    let ghost e = data.entries@;
    let n = data.entries.len();
    let mut ids: Vec<i32> = Vec::new();
    let mut i: usize = 0;
    while i < n
        invariant
            n == e.len(),
            e == data.entries@,
            i <= n,
            forall|k: int| 0 <= k < i ==> (#[trigger] datapoint_country(e[k], quarter_id)) is Some,
            ids@.no_duplicates(),
            forall|x: i32|
                ids@.contains(x) <==> exists|k: int|
                    0 <= k < i && #[trigger] datapoint_country(e[k], quarter_id) == Some(x),
        decreases n - i,
    {
        let entry = &data.entries[i];
        if entry.quarter.len() != 1 {
            return Err(PrepareError::NotOneQuarter { id: entry.id.clone() });
        }
        if entry.country.len() != 1 {
            return Err(PrepareError::NotOneCountry { id: entry.id.clone() });
        }
        let quarter = match parse_i32(entry.quarter[0].id.as_str()) {
            Some(q) => q,
            None => {
                return Err(PrepareError::InvalidId { text: entry.quarter[0].id.clone() });
            },
        };
        if quarter != quarter_id {
            return Err(PrepareError::OtherQuarter { id: entry.id.clone() });
        }
        let country = match parse_i32(entry.country[0].id.as_str()) {
            Some(c) => c,
            None => {
                return Err(PrepareError::InvalidId { text: entry.country[0].id.clone() });
            },
        };
        assert(datapoint_country(e[i as int], quarter_id) == Some(country));
        let ghost before = ids@;
        if !contains_id(&ids, country) {
            ids.push(country);
            assert forall|a: int, b: int|
                0 <= a < ids@.len() && 0 <= b < ids@.len() && a != b implies ids@[a]
                != ids@[b] by {
                if a == before.len() {
                    assert(before.contains(ids@[b]) || b == before.len());
                } else if b == before.len() {
                    assert(ids@[a] == before[a]);
                }
            }
        }
        assert forall|x: i32|
            ids@.contains(x) <==> exists|k: int|
                0 <= k < i + 1 && #[trigger] datapoint_country(e[k], quarter_id) == Some(x) by {
            if ids@.contains(x) && !before.contains(x) {
                let a = choose|a: int| 0 <= a < ids@.len() && ids@[a] == x;
                if a < before.len() {
                    assert(before[a] == x);
                }
                assert(datapoint_country(e[i as int], quarter_id) == Some(x));
            }
            if exists|k: int| 0 <= k < i + 1 && #[trigger] datapoint_country(e[k], quarter_id) == Some(x) {
                let k = choose|k: int| 0 <= k < i + 1 && #[trigger] datapoint_country(e[k], quarter_id) == Some(x);
                if k < i {
                    assert(before.contains(x));
                    let a = choose|a: int| 0 <= a < before.len() && before[a] == x;
                    assert(ids@[a] == x);
                } else if !before.contains(x) {
                    assert(ids@[before.len() as int] == x);
                }
            }
        }
        i = i + 1;
    }
    Ok(ids)
}

impl CraftState {
    /// Titles are distinct and each existing country is listed once, as in the maps and
    /// sets Craft's answers were read into.
    #[verifier::type_invariant]
    spec fn well_formed(self) -> bool {
        titles_distinct(self.country_ids@) && self.existing@.no_duplicates()
    }

    /// The Craft country ids by title.
    pub closed spec fn spec_country_ids(self) -> Seq<CountryId> {
        self.country_ids@
    }

    /// The countries that already have a datapoint for the quarter.
    pub closed spec fn spec_existing(self) -> Seq<i32> {
        self.existing@
    }

    /// Puts together what was read from Craft.
    pub fn new(country_ids: Vec<CountryId>, existing: Vec<i32>) -> (r: CraftState)
        requires
            titles_distinct(country_ids@),
            existing@.no_duplicates(),
        ensures
            r.spec_country_ids() == country_ids@,
            r.spec_existing() == existing@,
    {
        CraftState { country_ids, existing }
    }

    /// The Craft country ids by title.
    pub fn country_ids(&self) -> (r: &Vec<CountryId>)
        ensures
            r@ == self.spec_country_ids(),
            titles_distinct(r@),
    {
        proof {
            use_type_invariant(self);
        }
        &self.country_ids
    }

    /// The countries that already have a datapoint for the quarter.
    pub fn existing(&self) -> (r: &Vec<i32>)
        ensures
            r@ == self.spec_existing(),
            r@.no_duplicates(),
    {
        proof {
            use_type_invariant(self);
        }
        &self.existing
    }
}

/// Matches each price to its Craft country and, when it has a salary, to the rate of its
/// currency. Prices without a salary are left out. `converted[i]` tells whether converting
/// price `i` to USD with its rate gave a finite price and a finite wage above zero (that
/// arithmetic is done by the caller). The first price without a Craft country, or with a
/// salary but no usable rate or a failed conversion, decides the error.
pub fn match_prices(
    prices: &Vec<CountryPrice>,
    country_ids: &Vec<CountryId>,
    rates: &UsdRates,
    converted: &Vec<bool>,
) -> (r: Result<Vec<Match>, MatchError>)
    requires
        converted@.len() == prices@.len(),
    ensures
        ({
            let ps = prices@;
            let ids = country_ids@;
            let cs = converted@;
            &&& r is Ok <==> forall|i: int|
                0 <= i < ps.len() ==> #[trigger] price_matches(ps[i], ids, *rates, cs[i])
            &&& match r {
                Ok(m) => m@ == matched_upto(ps, ids, *rates, ps.len() as int) && m@.len()
                    <= ps.len(),
                Err(MatchError::NoCountry { country }) => exists|i: int|
                    0 <= i < ps.len() && (forall|j: int|
                        0 <= j < i ==> #[trigger] price_matches(ps[j], ids, *rates, cs[j]))
                        && id_for(ids, ps[i].country@) is None && country@ == ps[i].country@,
                Err(MatchError::Rate { currency, error }) => exists|i: int|
                    0 <= i < ps.len() && (forall|j: int|
                        0 <= j < i ==> #[trigger] price_matches(ps[j], ids, *rates, cs[j]))
                        && id_for(ids, ps[i].country@) is Some && ps[i].monthly_salary is Some
                        && rates.spec_local_per_usd(ps[i].currency@) == Err::<u64, RateError>(
                        error,
                    ) && currency@ == ps[i].currency@,
                Err(MatchError::InvalidConversion { country }) => exists|i: int|
                    0 <= i < ps.len() && (forall|j: int|
                        0 <= j < i ==> #[trigger] price_matches(ps[j], ids, *rates, cs[j]))
                        && id_for(ids, ps[i].country@) is Some && ps[i].monthly_salary is Some
                        && rates.spec_local_per_usd(ps[i].currency@) is Ok && !cs[i]
                        && country@ == ps[i].country@,
            }
        }),
{
    let ghost ps = prices@;
    let ghost cs = converted@;
    let n = prices.len();
    let mut out: Vec<Match> = Vec::new();
    let mut i: usize = 0;
    while i < n
        invariant
            n == ps.len(),
            ps == prices@,
            cs == converted@,
            cs.len() == n,
            i <= n,
            forall|j: int|
                0 <= j < i ==> #[trigger] price_matches(ps[j], country_ids@, *rates, cs[j]),
            out@ == matched_upto(ps, country_ids@, *rates, i as int),
            out@.len() <= i,
        decreases n - i,
    {
        let price = &prices[i];
        let country_id = match find_country_id(country_ids, &price.country) {
            Some(id) => id,
            None => {
                assert(!price_matches(ps[i as int], country_ids@, *rates, cs[i as int]));
                return Err(MatchError::NoCountry { country: price.country.clone() });
            },
        };
        if price.monthly_salary.is_some() {
            let rate = match rates.local_per_usd(price.currency.as_str()) {
                Ok(rate) => rate,
                Err(error) => {
                    assert(!price_matches(ps[i as int], country_ids@, *rates, cs[i as int]));
                    return Err(MatchError::Rate { currency: price.currency.clone(), error });
                },
            };
            if !converted[i] {
                assert(!price_matches(ps[i as int], country_ids@, *rates, cs[i as int]));
                return Err(MatchError::InvalidConversion { country: price.country.clone() });
            }
            out.push(Match { source: i, country_id, local_per_usd: rate });
        }
        i = i + 1;
    }
    Ok(out)
}

/// The matches to upload: those whose country has no datapoint yet, the first match of
/// each country only, in order.
pub fn pending_datapoints(matched: Vec<Match>, existing: &Vec<i32>) -> (r: Vec<Match>)
    ensures
        r@ == new_datapoints_upto(matched@, existing@, matched@.len() as int),
        r@.len() <= matched@.len(),
{
    let n = matched.len();
    let mut seen: Vec<i32> = Vec::new();
    let mut k: usize = 0;
    while k < existing.len()
        invariant
            k <= existing@.len(),
            seen@ == existing@.take(k as int),
        decreases existing@.len() - k,
    {
        seen.push(existing[k]);
        assert(existing@.take(k + 1) =~= existing@.take(k as int).push(existing@[k as int]));
        k = k + 1;
    }
    assert(existing@.take(existing@.len() as int) =~= existing@);
    let mut out: Vec<Match> = Vec::new();
    let mut i: usize = 0;
    while i < n
        invariant
            n == matched@.len(),
            i <= n,
            seen@ == existing@ + match_ids(out@),
            out@ == new_datapoints_upto(matched@, existing@, i as int),
            out@.len() <= i,
        decreases n - i,
    {
        let d = matched[i];
        let ghost prev = out@;
        proof {
            let ex = existing@;
            let ids = match_ids(prev);
            assert((ex + ids).contains(d.country_id) <==> (ex.contains(d.country_id)
                || ids.contains(d.country_id))) by {
                if (ex + ids).contains(d.country_id) {
                    let a = choose|a: int| 0 <= a < (ex + ids).len() && (ex + ids)[a] == d.country_id;
                    if a >= ex.len() {
                        assert(ids[a - ex.len()] == d.country_id);
                    } else {
                        assert(ex[a] == d.country_id);
                    }
                }
                if ex.contains(d.country_id) {
                    let a = choose|a: int| 0 <= a < ex.len() && ex[a] == d.country_id;
                    assert((ex + ids)[a] == d.country_id);
                }
                if ids.contains(d.country_id) {
                    let a = choose|a: int| 0 <= a < ids.len() && ids[a] == d.country_id;
                    assert((ex + ids)[a + ex.len()] == d.country_id);
                }
            }
        }
        if !contains_id(&seen, d.country_id) {
            seen.push(d.country_id);
            out.push(d);
            assert(match_ids(out@) =~= match_ids(prev).push(d.country_id));
            assert(seen@ =~= existing@ + match_ids(out@));
        }
        i = i + 1;
    }
    out
}

/// Fails when there are no prices to upload.
pub fn check_prices(prices: &Vec<CountryPrice>) -> (r: Result<(), UploadError>)
    ensures
        r is Err <==> prices@.len() == 0,
{
    if prices.len() == 0 {
        Err(UploadError::NoPrices)
    } else {
        Ok(())
    }
}

/// Craft saved a datapoint when it answers with an entry whose id is not empty.
pub fn datapoint_saved(saved: &SavedDatapoint) -> (r: bool)
    ensures
        r == (saved.entry matches Some(e) && e.id@.len() > 0),
{
    match &saved.entry {
        Some(e) => !e.id.as_str().is_empty(),
        None => false,
    }
}

/// Progress is reported after every tenth datapoint and after the last one.
pub fn report_progress(index: usize, count: usize) -> (r: bool)
    requires
        index < usize::MAX,
    ensures
        r == ((index + 1) % 10 == 0 || index + 1 == count),
{
    (index + 1) % 10 == 0 || index + 1 == count
}

/// The numbers reported after an upload: prices left out for want of a salary, and prices
/// skipped because their country already has a datapoint or came twice.
pub fn upload_counts(prices: usize, matched: usize, pending: usize) -> (r: (usize, usize))
    requires
        pending <= matched <= prices,
    ensures
        r.0 == prices - matched,
        r.1 == matched - pending,
        r.0 + r.1 + pending == prices,
{
    (prices - matched, matched - pending)
}

/// The datapoints chosen for upload are new: no country already has a datapoint for the
/// quarter, no country comes twice, and each was matched.
pub proof fn law_uploads_are_new(matched: Seq<Match>, existing: Seq<i32>, n: int)
    requires
        0 <= n <= matched.len(),
    ensures
        ({
            let r = new_datapoints_upto(matched, existing, n);
            &&& match_ids(r).no_duplicates()
            &&& forall|k: int| 0 <= k < r.len() ==> !existing.contains(#[trigger] r[k].country_id)
            &&& forall|k: int|
                0 <= k < r.len() ==> exists|i: int| 0 <= i < n && matched[i] == #[trigger] r[k]
        }),
    decreases n,
{
    if n > 0 {
        law_uploads_are_new(matched, existing, n - 1);
        let prev = new_datapoints_upto(matched, existing, n - 1);
        let d = matched[n - 1];
        if !(existing.contains(d.country_id) || match_ids(prev).contains(d.country_id)) {
            let r = prev.push(d);
            assert(match_ids(r) =~= match_ids(prev).push(d.country_id));
            assert forall|a: int, b: int|
                0 <= a < match_ids(r).len() && 0 <= b < match_ids(r).len() && a != b implies match_ids(
                r,
            )[a] != match_ids(r)[b] by {
                if a == prev.len() {
                    assert(match_ids(prev)[b] == match_ids(r)[b]);
                } else if b == prev.len() {
                    assert(match_ids(prev)[a] == match_ids(r)[a]);
                } else {
                    assert(match_ids(prev)[a] == match_ids(r)[a]);
                    assert(match_ids(prev)[b] == match_ids(r)[b]);
                }
            }
            assert forall|k: int| 0 <= k < r.len() implies exists|i: int|
                0 <= i < n && matched[i] == #[trigger] r[k] by {
                if k < prev.len() {
                    assert(r[k] == prev[k]);
                } else {
                    assert(matched[n - 1] == r[k]);
                }
            }
        }
    }
}

/// Every matched country that has no datapoint yet is uploaded once.
pub proof fn law_new_countries_uploaded(matched: Seq<Match>, existing: Seq<i32>, n: int, i: int)
    requires
        0 <= i < n <= matched.len(),
        !existing.contains(matched[i].country_id),
    ensures
        match_ids(new_datapoints_upto(matched, existing, n)).contains(matched[i].country_id),
    decreases n,
{
    let prev = new_datapoints_upto(matched, existing, n - 1);
    let d = matched[n - 1];
    if i < n - 1 {
        law_new_countries_uploaded(matched, existing, n - 1, i);
        if !(existing.contains(d.country_id) || match_ids(prev).contains(d.country_id)) {
            let r = prev.push(d);
            assert(match_ids(r) =~= match_ids(prev).push(d.country_id));
            let a = choose|a: int|
                0 <= a < match_ids(prev).len() && match_ids(prev)[a] == matched[i].country_id;
            assert(match_ids(r)[a] == matched[i].country_id);
        }
    } else if !match_ids(prev).contains(d.country_id) {
        let r = prev.push(d);
        assert(match_ids(r) =~= match_ids(prev).push(d.country_id));
        assert(match_ids(r)[prev.len() as int] == d.country_id);
    }
}

/// Countries without a salary are not uploaded: every match is for a price with a
/// salary, and matches keep the order of the prices.
pub proof fn law_matches_have_salaries(
    prices: Seq<CountryPrice>,
    ids: Seq<CountryId>,
    rates: UsdRates,
    n: int,
)
    requires
        0 <= n <= prices.len() <= usize::MAX,
    ensures
        ({
            let m = matched_upto(prices, ids, rates, n);
            &&& forall|k: int|
                0 <= k < m.len() ==> (#[trigger] m[k]).source < n && prices[m[k].source as int].monthly_salary is Some
            &&& forall|j: int, k: int| 0 <= j < k < m.len() ==> m[j].source < m[k].source
        }),
    decreases n,
{
    if n > 0 {
        law_matches_have_salaries(prices, ids, rates, n - 1);
        let prev = matched_upto(prices, ids, rates, n - 1);
        if prices[n - 1].monthly_salary is Some {
            let m = matched_upto(prices, ids, rates, n);
            assert(m[prev.len() as int].source == n - 1);
            assert forall|k: int| 0 <= k < prev.len() implies m[k] == prev[k] by {}
        }
    }
}

/// When a price with a salary has no usable rate for its currency, nothing is matched,
/// so nothing is uploaded.
pub proof fn law_missing_rate_fails(
    prices: Seq<CountryPrice>,
    ids: Seq<CountryId>,
    rates: UsdRates,
    converted: Seq<bool>,
    i: int,
)
    requires
        0 <= i < prices.len(),
        converted.len() == prices.len(),
        prices[i].monthly_salary is Some,
        rates.spec_local_per_usd(prices[i].currency@) is Err,
    ensures
        !(forall|j: int|
            0 <= j < prices.len() ==> #[trigger] price_matches(prices[j], ids, rates, converted[j])),
{
    assert(!price_matches(prices[i], ids, rates, converted[i]));
}

/// A price is matched to a Craft country only by the exact title: the id found for a
/// title is that of the first country with exactly that title, and none is found when no
/// country has it ("Niger" never stands in for "Nigeria").
pub proof fn law_country_found_by_exact_title(ids: Seq<CountryId>, title: Seq<char>)
    ensures
        match id_for(ids, title) {
            Some(x) => exists|i: int|
                0 <= i < ids.len() && (#[trigger] ids[i]).title@ == title && ids[i].id == x
                    && forall|j: int| 0 <= j < i ==> (#[trigger] ids[j]).title@ != title,
            None => forall|i: int| 0 <= i < ids.len() ==> (#[trigger] ids[i]).title@ != title,
        },
    decreases ids.len(),
{
    if ids.len() > 0 {
        let rest = ids.drop_first();
        law_country_found_by_exact_title(rest, title);
        assert forall|i: int| 0 < i < ids.len() implies ids[i] == rest[i - 1] by {}
        if ids[0].title@ != title {
            match id_for(rest, title) {
                Some(x) => {
                    let k = choose|k: int|
                        0 <= k < rest.len() && (#[trigger] rest[k]).title@ == title && rest[k].id
                            == x && forall|j: int| 0 <= j < k ==> (#[trigger] rest[j]).title@ != title;
                    assert(ids[k + 1] == rest[k]);
                    assert forall|j: int| 0 <= j < k + 1 implies (#[trigger] ids[j]).title@ != title by {
                        if j > 0 {
                            assert(ids[j] == rest[j - 1]);
                        }
                    }
                },
                None => {},
            }
        }
    }
}

/// With distinct titles, the country whose title is exactly the price's country is the
/// one every match is made with.
pub proof fn law_distinct_titles_give_the_listed_id(ids: Seq<CountryId>, i: int)
    requires
        titles_distinct(ids),
        0 <= i < ids.len(),
    ensures
        id_for(ids, ids[i].title@) == Some(ids[i].id),
{
    law_country_found_by_exact_title(ids, ids[i].title@);
    let x = id_for(ids, ids[i].title@)->0;
    let k = choose|k: int|
        0 <= k < ids.len() && (#[trigger] ids[k]).title@ == ids[i].title@ && ids[k].id == x
            && forall|j: int| 0 <= j < k ==> (#[trigger] ids[j]).title@ != ids[i].title@;
    if k != i {
        assert(ids[k].title@ == ids[i].title@);
    }
}

/// Every match carries the id of a Craft country titled exactly as its price's country.
pub proof fn law_matches_use_exact_titles(
    prices: Seq<CountryPrice>,
    ids: Seq<CountryId>,
    rates: UsdRates,
    converted: Seq<bool>,
    n: int,
)
    requires
        0 <= n <= prices.len() <= usize::MAX,
        converted.len() == prices.len(),
        forall|i: int| 0 <= i < n ==> #[trigger] price_matches(prices[i], ids, rates, converted[i]),
    ensures
        ({
            let m = matched_upto(prices, ids, rates, n);
            forall|k: int|
                0 <= k < m.len() ==> exists|j: int|
                    0 <= j < ids.len() && (#[trigger] ids[j]).title@ == prices[(#[trigger] m[k]).source as int].country@
                        && ids[j].id == m[k].country_id
        }),
    decreases n,
{
    if n > 0 {
        law_matches_use_exact_titles(prices, ids, rates, converted, n - 1);
        let prev = matched_upto(prices, ids, rates, n - 1);
        let m = matched_upto(prices, ids, rates, n);
        if prices[n - 1].monthly_salary is Some {
            assert(price_matches(prices[n - 1], ids, rates, converted[n - 1]));
            law_country_found_by_exact_title(ids, prices[n - 1].country@);
            assert forall|k: int| 0 <= k < prev.len() implies m[k] == prev[k] by {}
            assert(m[prev.len() as int].source == n - 1);
        }
    }
}

} // verus!
