//! Numbeo rows scraped through Apify: which rows are grocery beer prices and net
//! salaries, which countries a cache already covers, and what a sync run does next.
use vstd::prelude::*;

use crate::float_bits::{
    at_least, at_most, positive_finite, spec_at_least, spec_at_most, spec_positive_finite,
};
use crate::text::{
    ascii_lower, eq_ignore_ascii_case, join, joined, same_text, strip_prefix_or_keep, texts,
    without_prefix,
};

verus! {

/// One dataset row of the Numbeo actor, as far as the selection reads it. Amounts are
/// IEEE 754 double-precision bit patterns, which the library compares but does no
/// arithmetic on.
pub struct PriceRow {
    pub kind: Option<String>,
    pub country: Option<String>,
    pub category_group: Option<String>,
    pub item_name: Option<String>,
    pub avg_price: Option<u64>,
    pub lowest_price: Option<u64>,
    pub highest_price: Option<u64>,
    pub currency: Option<String>,
}

/// A raw dataset row together with what was read from it.
pub struct CacheRow {
    /// The row exactly as the actor returned it.
    pub raw: serde_json::Value,
    /// The row read as a price row; `None` when it does not have that shape.
    pub parsed: Option<PriceRow>,
    /// The keys of the row when it is a JSON object.
    pub keys: Option<Vec<String>>,
}

/// A country's average grocery price of a 0.5 liter bottle of domestic beer in the local
/// currency, with the average net monthly salary of the same dataset in that currency,
/// if there is one. Amounts are bit patterns as in `PriceRow`.
#[derive(Debug, PartialEq)]
pub struct CountryPrice {
    pub country: String,
    pub price: u64,
    pub currency: String,
    pub monthly_salary: Option<u64>,
}

/// The mathematical form of a `CountryPrice`: country, currency, price, salary.
pub type PriceView = (Seq<char>, Seq<char>, u64, Option<u64>);

impl View for CountryPrice {
    type V = PriceView;

    open spec fn view(&self) -> PriceView {
        (self.country@, self.currency@, self.price, self.monthly_salary)
    }
}

/// The bit pattern of the average amount of row `r` (meaningful when it has one).
pub open spec fn amount_bits(r: Option<PriceRow>) -> u64 {
    match r {
        Some(row) => match row.avg_price {
            Some(a) => a,
            None => 0,
        },
        None => 0,
    }
}

/// The views of a sequence of country prices.
pub open spec fn price_views(v: Seq<CountryPrice>) -> Seq<PriceView> {
    v.map_values(|p: CountryPrice| p@)
}

/// The parsed form of each cached row.
pub open spec fn parsed_rows(rows: Seq<CacheRow>) -> Seq<Option<PriceRow>> {
    rows.map_values(|r: CacheRow| r.parsed)
}

/// `o` holds exactly the text `lit`.
pub open spec fn text_is(o: Option<String>, lit: Seq<char>) -> bool {
    match o {
        Some(s) => s@ == lit,
        None => false,
    }
}

/// `o` holds a text equal to `lit` up to ASCII case.
pub open spec fn text_is_ignoring_case(o: Option<String>, lit: Seq<char>) -> bool {
    match o {
        Some(s) => ascii_lower(s@) == ascii_lower(lit),
        None => false,
    }
}

/// The country name of a Numbeo page title ("Cost of Living in Brazil" is Brazil).
pub open spec fn spec_numbeo_country(country: Seq<char>) -> Seq<char> {
    without_prefix(country, "Cost of Living in "@)
}

/// A national grocery-store price of a 0.5 liter bottle of domestic beer.
pub open spec fn spec_is_beer_row(row: PriceRow) -> bool {
    &&& text_is(row.kind, "country_price"@)
    &&& text_is(row.category_group, "Markets"@)
    &&& text_is_ignoring_case(row.item_name, "Domestic Beer (0.5 Liter Bottle)"@)
}

/// A beer row whose price can be used: finite and above zero, at least its reported
/// lowest price and at most its reported highest price (where given), and in a named
/// currency.
pub open spec fn spec_is_usable_beer_row(row: PriceRow) -> bool {
    &&& spec_is_beer_row(row)
    &&& match row.avg_price {
        Some(p) => spec_positive_finite(p) && match row.lowest_price {
            Some(l) => spec_at_least(p, l),
            None => true,
        } && match row.highest_price {
            Some(h) => spec_at_most(p, h),
            None => true,
        },
        None => false,
    }
    &&& match row.currency {
        Some(c) => c@.len() > 0,
        None => false,
    }
}

/// A national average monthly net salary with a finite amount above zero.
pub open spec fn spec_is_salary_row(row: PriceRow) -> bool {
    &&& text_is(row.kind, "country_price"@)
    &&& text_is(row.category_group, "Salaries And Financing"@)
    &&& text_is_ignoring_case(row.item_name, "Average Monthly Net Salary (After Tax)"@)
    &&& match row.avg_price {
        Some(p) => spec_positive_finite(p),
        None => false,
    }
}

/// Country and currency under which a salary row is filed, if it is one.
pub open spec fn salary_key(r: Option<PriceRow>) -> Option<(Seq<char>, Seq<char>)> {
    match r {
        Some(row) => if spec_is_salary_row(row) {
            match (row.country, row.currency) {
                (Some(c), Some(cur)) => Some((spec_numbeo_country(c@), cur@)),
                _ => None,
            }
        } else {
            None
        },
        None => None,
    }
}

/// The last of the first `n` rows that is a salary for `country` in `currency`
/// (a later salary for the same pair replaces an earlier one).
pub open spec fn salary_for(
    rows: Seq<Option<PriceRow>>,
    n: int,
    country: Seq<char>,
    currency: Seq<char>,
) -> Option<int>
    decreases n,
{
    if n <= 0 {
        None
    } else if salary_key(rows[n - 1]) == Some((country, currency)) {
        Some(n - 1)
    } else {
        salary_for(rows, n - 1, country, currency)
    }
}

/// The price that row `i` contributes, if it is a usable beer row of a named country.
pub open spec fn beer_entry(rows: Seq<Option<PriceRow>>, i: int) -> Option<PriceView> {
    match rows[i] {
        Some(row) => if spec_is_usable_beer_row(row) {
            match (row.country, row.currency) {
                (Some(c), Some(cur)) => {
                    let country = spec_numbeo_country(c@);
                    let salary = match salary_for(rows, rows.len() as int, country, cur@) {
                        Some(k) => Some(amount_bits(rows[k])),
                        None => None,
                    };
                    Some((country, cur@, amount_bits(rows[i]), salary))
                },
                _ => None,
            }
        } else {
            None
        },
        None => None,
    }
}

/// The prices contributed by the first `n` rows, in row order.
pub open spec fn beer_prices_upto(rows: Seq<Option<PriceRow>>, n: int) -> Seq<PriceView>
    decreases n,
{
    if n <= 0 {
        Seq::empty()
    } else {
        match beer_entry(rows, n - 1) {
            Some(e) => beer_prices_upto(rows, n - 1).push(e),
            None => beer_prices_upto(rows, n - 1),
        }
    }
}

/// The beer prices of a whole dataset, in row order.
pub open spec fn spec_beer_prices(rows: Seq<Option<PriceRow>>) -> Seq<PriceView> {
    beer_prices_upto(rows, rows.len() as int)
}

/// The number of beer rows among the first `n` that are not usable.
pub open spec fn rejected_upto(rows: Seq<Option<PriceRow>>, n: int) -> nat
    decreases n,
{
    if n <= 0 {
        0
    } else {
        let prev = rejected_upto(rows, n - 1);
        match rows[n - 1] {
            Some(row) => if spec_is_beer_row(row) && !spec_is_usable_beer_row(row) {
                prev + 1
            } else {
                prev
            },
            None => prev,
        }
    }
}

/// `o` holds a text, and that text is `lit`.
fn opt_text_is(o: &Option<String>, lit: &str) -> (r: bool)
    ensures
        r == text_is(*o, lit@),
{
    match o {
        Some(s) => same_text(s.as_str(), lit),
        None => false,
    }
}

/// `o` holds a text, and that text equals `lit` up to ASCII case.
fn opt_text_is_ignoring_case(o: &Option<String>, lit: &str) -> (r: bool)
    ensures
        r == text_is_ignoring_case(*o, lit@),
{
    match o {
        Some(s) => eq_ignore_ascii_case(s.as_str(), lit),
        None => false,
    }
}

/// The country of a Numbeo row: its page title without "Cost of Living in ".
pub fn numbeo_country(country: &str) -> (r: &str)
    ensures
        r@ == spec_numbeo_country(country@),
{
    strip_prefix_or_keep(country, "Cost of Living in ")
}

/// Whether a row is the national grocery price of a 0.5 liter bottle of domestic beer.
pub fn is_beer_row(row: &PriceRow) -> (r: bool)
    ensures
        r == spec_is_beer_row(*row),
{
    opt_text_is(&row.kind, "country_price") && opt_text_is(&row.category_group, "Markets")
        && opt_text_is_ignoring_case(&row.item_name, "Domestic Beer (0.5 Liter Bottle)")
}

/// Whether a beer row's price is usable: positive, within the reported range, and in a
/// named currency.
pub fn is_usable_beer_row(row: &PriceRow) -> (r: bool)
    ensures
        r == spec_is_usable_beer_row(*row),
{
    let price_ok = match row.avg_price {
        Some(p) => positive_finite(p) && match row.lowest_price {
            Some(l) => at_least(p, l),
            None => true,
        } && match row.highest_price {
            Some(h) => at_most(p, h),
            None => true,
        },
        None => false,
    };
    let currency_ok = match &row.currency {
        Some(c) => !c.as_str().is_empty(),
        None => false,
    };
    price_ok && is_beer_row(row) && currency_ok
}

/// Whether a row is a national average monthly net salary with a positive amount.
pub fn is_salary_row(row: &PriceRow) -> (r: bool)
    ensures
        r == spec_is_salary_row(*row),
{
    let amount_ok = match row.avg_price {
        Some(p) => positive_finite(p),
        None => false,
    };
    opt_text_is(&row.kind, "country_price") && opt_text_is(
        &row.category_group,
        "Salaries And Financing",
    ) && opt_text_is_ignoring_case(&row.item_name, "Average Monthly Net Salary (After Tax)")
        && amount_ok
}


/// A salary row found in a dataset, filed under its country and currency.
struct SalaryEntry {
    country: String,
    currency: String,
    row: usize,
    bits: u64,
}

/// `list` holds, in row order, every salary row among the first `n` rows.
spec fn salary_list_of(list: Seq<SalaryEntry>, rows: Seq<Option<PriceRow>>, n: int) -> bool {
    &&& forall|j: int|
        0 <= j < list.len() ==> (#[trigger] list[j]).row < n && salary_key(rows[list[j].row as int])
            == Some((list[j].country@, list[j].currency@)) && list[j].bits == amount_bits(
            rows[list[j].row as int],
        )
    &&& forall|j: int, k: int| 0 <= j < k < list.len() ==> list[j].row < list[k].row
    &&& forall|k: int|
        0 <= k < n && (#[trigger] salary_key(rows[k])) is Some ==> exists|j: int|
            0 <= j < list.len() && (#[trigger] list[j]).row == k
}

proof fn lemma_salary_for(
    rows: Seq<Option<PriceRow>>,
    n: int,
    country: Seq<char>,
    currency: Seq<char>,
)
    requires
        0 <= n <= rows.len(),
    ensures
        match salary_for(rows, n, country, currency) {
            Some(k) => {
                &&& 0 <= k < n
                &&& salary_key(rows[k]) == Some((country, currency))
                &&& forall|j: int| k < j < n ==> salary_key(rows[j]) != Some((country, currency))
            },
            None => forall|j: int| 0 <= j < n ==> salary_key(rows[j]) != Some((country, currency)),
        },
    decreases n,
{
    if n > 0 {
        lemma_salary_for(rows, n - 1, country, currency);
    }
}

/// The amount of the last salary filed under `country` and `currency`.
fn find_salary(
    list: &Vec<SalaryEntry>,
    country: &String,
    currency: &String,
    Ghost(rows): Ghost<Seq<Option<PriceRow>>>,
) -> (r: Option<u64>)
    requires
        salary_list_of(list@, rows, rows.len() as int),
    ensures
        match salary_for(rows, rows.len() as int, country@, currency@) {
            Some(k) => r == Some(amount_bits(rows[k])),
            None => r is None,
        },
{
    let mut j = list.len();
    while j > 0
        invariant
            j <= list@.len(),
            salary_list_of(list@, rows, rows.len() as int),
            forall|k: int|
                j <= k < list@.len() ==> ((#[trigger] list@[k]).country@, list@[k].currency@) != (
                country@,
                currency@,
            ),
        decreases j,
    {
        let e = &list[j - 1];
        if same_text(e.country.as_str(), country.as_str()) && same_text(
            e.currency.as_str(),
            currency.as_str(),
        ) {
            proof {
                lemma_salary_for(rows, rows.len() as int, country@, currency@);
                let r = e.row as int;
                assert(salary_key(rows[r]) == Some((country@, currency@)));
                match salary_for(rows, rows.len() as int, country@, currency@) {
                    Some(k) => {
                        if k > r {
                            let jj = choose|jj: int| 0 <= jj < list@.len() && (#[trigger] list@[jj]).row == k;
                            if jj < j - 1 {
                                assert(list@[jj].row < list@[j - 1].row);
                            } else if jj > j - 1 {
                                assert(list@[jj].country@ == country@);
                            }
                        }
                    },
                    None => {},
                }
            }
            return Some(e.bits);
        }
        j = j - 1;
    }
    proof {
        lemma_salary_for(rows, rows.len() as int, country@, currency@);
        match salary_for(rows, rows.len() as int, country@, currency@) {
            Some(k) => {
                let jj = choose|jj: int| 0 <= jj < list@.len() && (#[trigger] list@[jj]).row == k;
                assert(list@[jj].country@ == country@ && list@[jj].currency@ == currency@);
            },
            None => {},
        }
    }
    None
}

/// Every salary row of the dataset, in row order.
fn salary_rows(rows: &Vec<CacheRow>) -> (list: Vec<SalaryEntry>)
    ensures
        salary_list_of(list@, parsed_rows(rows@), rows@.len() as int),
{
    let ghost prs = parsed_rows(rows@);
    let n = rows.len();
    let mut list: Vec<SalaryEntry> = Vec::new();
    let mut i: usize = 0;
    while i < n
        invariant
            n == rows@.len(),
            prs == parsed_rows(rows@),
            i <= n,
            salary_list_of(list@, prs, i as int),
        decreases n - i,
    {
        assert(prs[i as int] == rows@[i as int].parsed);
        if let Some(row) = &rows[i].parsed {
            if is_salary_row(row) {
                match (&row.country, &row.currency, &row.avg_price) {
                    (Some(c), Some(cur), Some(amount)) => {
                        let country = numbeo_country(c.as_str()).to_owned();
                        let currency = cur.clone();
                        let ghost before = list@;
                        list.push(SalaryEntry { country, currency, row: i, bits: *amount });
                        assert(list@[list@.len() - 1].row == i);
                        assert forall|k: int|
                            0 <= k < i + 1 && (#[trigger] salary_key(prs[k])) is Some implies exists|
                                j: int,
                            | 0 <= j < list@.len() && (#[trigger] list@[j]).row == k by {
                            if k < i {
                                let j = choose|j: int| 0 <= j < before.len() && (#[trigger] before[j]).row == k;
                                assert(list@[j] == before[j]);
                            } else {
                                assert(list@[list@.len() - 1].row == k);
                            }
                        }
                    },
                    _ => {},
                }
            }
        }
        i = i + 1;
    }
    list
}

/// Usable grocery beer prices in row order, each with the net monthly salary filed under
/// its country and currency, if any (the last such salary row when several are).
pub fn beer_prices(rows: &Vec<CacheRow>) -> (prices: Vec<CountryPrice>)
    ensures
        price_views(prices@) == spec_beer_prices(parsed_rows(rows@)),
{
    let ghost prs = parsed_rows(rows@);
    let salaries = salary_rows(rows);
    let n = rows.len();
    let mut prices: Vec<CountryPrice> = Vec::new();
    let mut i: usize = 0;
    while i < n
        invariant
            n == rows@.len(),
            prs == parsed_rows(rows@),
            i <= n,
            salary_list_of(salaries@, prs, n as int),
            price_views(prices@) == beer_prices_upto(prs, i as int),
        decreases n - i,
    {
        assert(prs[i as int] == rows@[i as int].parsed);
        let ghost before = prices@;
        if let Some(row) = &rows[i].parsed {
            if is_usable_beer_row(row) {
                match (&row.country, &row.currency, &row.avg_price) {
                    (Some(c), Some(cur), Some(amount)) => {
                        let country = numbeo_country(c.as_str()).to_owned();
                        let currency = cur.clone();
                        let monthly_salary = find_salary(
                            &salaries,
                            &country,
                            &currency,
                            Ghost(prs),
                        );
                        prices.push(
                            CountryPrice { country, price: *amount, currency, monthly_salary },
                        );
                        assert(price_views(prices@) =~= price_views(before).push(
                            prices@[prices@.len() - 1]@,
                        ));
                    },
                    _ => {},
                }
            }
        }
        i = i + 1;
    }
    prices
}

/// How many beer rows were left out because their price is not usable.
pub fn rejected_beer_rows(rows: &Vec<CacheRow>) -> (count: usize)
    ensures
        count == rejected_upto(parsed_rows(rows@), rows@.len() as int),
{
    let ghost prs = parsed_rows(rows@);
    let n = rows.len();
    let mut count: usize = 0;
    let mut i: usize = 0;
    while i < n
        invariant
            n == rows@.len(),
            prs == parsed_rows(rows@),
            i <= n,
            count == rejected_upto(prs, i as int),
            count <= i,
        decreases n - i,
    {
        assert(prs[i as int] == rows@[i as int].parsed);
        if let Some(row) = &rows[i].parsed {
            if is_beer_row(row) && !is_usable_beer_row(row) {
                count = count + 1;
            }
        }
        i = i + 1;
    }
    count
}

/// Row `r` is a usable beer price of `country`.
pub open spec fn row_covers(r: Option<PriceRow>, country: Seq<char>) -> bool {
    match r {
        Some(row) => spec_is_usable_beer_row(row) && match row.country {
            Some(c) => spec_numbeo_country(c@) == country,
            None => false,
        },
        None => false,
    }
}

/// Some row of the dataset is a usable beer price of `country`.
pub open spec fn covered(rows: Seq<Option<PriceRow>>, country: Seq<char>) -> bool {
    exists|i: int| 0 <= i < rows.len() && #[trigger] row_covers(rows[i], country)
}

/// A country counts as completed when it was completed before, when a row covers it, or
/// when it was part of a request that succeeded.
pub open spec fn completion_pred(
    completed: Seq<Seq<char>>,
    rows: Seq<Option<PriceRow>>,
    requested: Seq<Seq<char>>,
) -> spec_fn(Seq<char>) -> bool {
    |c: Seq<char>| completed.contains(c) || covered(rows, c) || requested.contains(c)
}

/// A country still needs scraping when it is not completed.
pub open spec fn pending_pred(completed: Seq<Seq<char>>) -> spec_fn(Seq<char>) -> bool {
    |c: Seq<char>| !completed.contains(c)
}

/// The texts of an optional request; no request is an empty one.
pub open spec fn opt_texts(o: Option<&Vec<String>>) -> Seq<Seq<char>> {
    match o {
        Some(v) => texts(v@),
        None => Seq::empty(),
    }
}

/// The Apify scrape state saved between runs: the requested countries, the countries
/// already covered, the runs whose rows were imported, a run still in progress, and
/// every raw row received so far.
pub struct ApifyCache {
    pub countries: Vec<String>,
    pub completed: Vec<String>,
    pub imported_runs: Vec<String>,
    pub active_run_id: Option<String>,
    pub rows: Vec<CacheRow>,
}

/// Errors of reading back a saved cache.
pub enum CacheError {
    /// The cache was made for another country list.
    DifferentCountries,
}

impl ApifyCache {
    /// The countries, in list order, that the cache has not completed.
    pub open spec fn spec_pending(self) -> Seq<Seq<char>> {
        texts(self.countries@).filter(pending_pred(texts(self.completed@)))
    }

    /// The completed countries after taking `rows` and a successful `requested` into
    /// account, in list order.
    pub open spec fn completed_with(
        self,
        rows: Seq<CacheRow>,
        requested: Seq<Seq<char>>,
    ) -> Seq<Seq<char>> {
        texts(self.countries@).filter(
            completion_pred(texts(self.completed@), parsed_rows(rows), requested),
        )
    }

    /// `after` is `before` with a run's `rows` recorded: rows appended, completion
    /// brought up to date with `requested` counted as done, and the run listed once.
    pub open spec fn recorded(
        before: ApifyCache,
        after: ApifyCache,
        run_id: Seq<char>,
        rows: Seq<CacheRow>,
        requested: Seq<Seq<char>>,
    ) -> bool {
        &&& after.rows@ == before.rows@ + rows
        &&& after.countries@ == before.countries@
        &&& texts(after.completed@) == before.completed_with(after.rows@, requested)
        &&& texts(after.imported_runs@) == if texts(before.imported_runs@).contains(run_id) {
            texts(before.imported_runs@)
        } else {
            texts(before.imported_runs@).push(run_id)
        }
    }

    /// Recomputes the completed countries from the rows, also counting `requested` as
    /// done; the result keeps the order of the country list.
    pub fn update_completed(&mut self, requested: Option<&Vec<String>>)
        ensures
            final(self).countries == old(self).countries,
            final(self).imported_runs == old(self).imported_runs,
            final(self).active_run_id == old(self).active_run_id,
            final(self).rows == old(self).rows,
            texts(final(self).completed@) == old(self).completed_with(
                old(self).rows@,
                opt_texts(requested),
            ),
    {
        let ghost req = opt_texts(requested);
        let ghost prs = parsed_rows(self.rows@);
        let ghost pred = completion_pred(texts(self.completed@), prs, req);
        let found = covered_countries(&self.rows);
        let n = self.countries.len();
        let mut out: Vec<String> = Vec::new();
        let mut i: usize = 0;
        while i < n
            invariant
                n == self.countries@.len(),
                i <= n,
                prs == parsed_rows(self.rows@),
                req == opt_texts(requested),
                pred == completion_pred(texts(self.completed@), prs, req),
                forall|c: Seq<char>| texts(found@).contains(c) <==> covered(prs, c),
                texts(out@) == texts(self.countries@).take(i as int).filter(pred),
            decreases n - i,
        {
            let c = &self.countries[i];
            let keep = contains_text(&self.completed, c.as_str()) || contains_text(
                &found,
                c.as_str(),
            ) || match requested {
                Some(r) => contains_text(r, c.as_str()),
                None => false,
            };
            let ghost before = out@;
            proof {
                assert(texts(self.countries@).take(i + 1) =~= texts(self.countries@).take(
                    i as int,
                ).push(c@));
                texts(self.countries@).take(i as int).lemma_filter_push(c@, pred);
            }
            if keep {
                out.push(c.clone());
                assert(texts(out@) =~= texts(before).push(c@));
            }
            i = i + 1;
        }
        assert(texts(self.countries@).take(n as int) =~= texts(self.countries@));
        self.completed = out;
    }

    /// The countries, in list order, that still need scraping.
    pub fn pending(&self) -> (r: Vec<String>)
        ensures
            texts(r@) == self.spec_pending(),
    {
        let ghost pred = pending_pred(texts(self.completed@));
        let n = self.countries.len();
        let mut out: Vec<String> = Vec::new();
        let mut i: usize = 0;
        while i < n
            invariant
                n == self.countries@.len(),
                i <= n,
                pred == pending_pred(texts(self.completed@)),
                texts(out@) == texts(self.countries@).take(i as int).filter(pred),
            decreases n - i,
        {
            let c = &self.countries[i];
            let ghost before = out@;
            proof {
                assert(texts(self.countries@).take(i + 1) =~= texts(self.countries@).take(
                    i as int,
                ).push(c@));
                texts(self.countries@).take(i as int).lemma_filter_push(c@, pred);
            }
            if !contains_text(&self.completed, c.as_str()) {
                out.push(c.clone());
                assert(texts(out@) =~= texts(before).push(c@));
            }
            i = i + 1;
        }
        assert(texts(self.countries@).take(n as int) =~= texts(self.countries@));
        out
    }

    /// Records the rows of a run: appends them, brings completion up to date (counting
    /// `requested` as done when given), and lists the run among the imported ones once.
    pub fn record(&mut self, run_id: &str, rows: Vec<CacheRow>, requested: Option<&Vec<String>>)
        ensures
            ApifyCache::recorded(*old(self), *final(self), run_id@, rows@, opt_texts(requested)),
            final(self).active_run_id == old(self).active_run_id,
    {
        let mut rows = rows;
        self.rows.append(&mut rows);
        self.update_completed(requested);
        if !contains_text(&self.imported_runs, run_id) {
            let ghost before = self.imported_runs@;
            self.imported_runs.push(run_id.to_owned());
            assert(texts(self.imported_runs@) =~= texts(before).push(run_id@));
        }
    }

    /// Takes up a saved cache (`None` when there is none yet) for `countries`: a new one
    /// starts empty; a saved one must be for the same country list, and its completion is
    /// brought up to date with its rows.
    pub fn load(stored: Option<ApifyCache>, countries: &Vec<String>) -> (r: Result<
        ApifyCache,
        CacheError,
    >)
        ensures
            match stored {
                None => r matches Ok(c) && texts(c.countries@) == texts(countries@)
                    && c.completed@.len() == 0 && c.imported_runs@.len() == 0
                    && c.active_run_id is None && c.rows@.len() == 0,
                Some(s) => if texts(s.countries@) == texts(countries@) {
                    r matches Ok(c) && c.countries == s.countries && c.imported_runs
                        == s.imported_runs && c.active_run_id == s.active_run_id && c.rows
                        == s.rows && texts(c.completed@) == s.completed_with(
                        s.rows@,
                        Seq::empty(),
                    )
                } else {
                    r matches Err(CacheError::DifferentCountries)
                },
            },
    {
        match stored {
            None => Ok(
                ApifyCache {
                    countries: clone_texts(countries),
                    completed: Vec::new(),
                    imported_runs: Vec::new(),
                    active_run_id: None,
                    rows: Vec::new(),
                },
            ),
            Some(cache) => {
                if !same_texts(&cache.countries, countries) {
                    return Err(CacheError::DifferentCountries);
                }
                let mut cache = cache;
                cache.update_completed(None);
                Ok(cache)
            },
        }
    }
}

/// The country that row `r` gives a usable beer price for, if any.
pub open spec fn covered_country(r: Option<PriceRow>) -> Option<Seq<char>> {
    match r {
        Some(row) => if spec_is_usable_beer_row(row) {
            match row.country {
                Some(c) => Some(spec_numbeo_country(c@)),
                None => None,
            }
        } else {
            None
        },
        None => None,
    }
}

/// The countries covered by the first `n` rows, one entry per covering row.
spec fn covered_names(rows: Seq<Option<PriceRow>>, n: int) -> Seq<Seq<char>>
    decreases n,
{
    if n <= 0 {
        Seq::empty()
    } else {
        match covered_country(rows[n - 1]) {
            Some(c) => covered_names(rows, n - 1).push(c),
            None => covered_names(rows, n - 1),
        }
    }
}

proof fn lemma_covered_names(rows: Seq<Option<PriceRow>>, n: int, c: Seq<char>)
    requires
        0 <= n <= rows.len(),
    ensures
        covered_names(rows, n).contains(c) <==> exists|k: int|
            0 <= k < n && #[trigger] row_covers(rows[k], c),
    decreases n,
{
    if n > 0 {
        lemma_covered_names(rows, n - 1, c);
        let prev = covered_names(rows, n - 1);
        assert(row_covers(rows[n - 1], c) <==> covered_country(rows[n - 1]) == Some(c));
        match covered_country(rows[n - 1]) {
            Some(x) => {
                assert(covered_names(rows, n) == prev.push(x));
                if prev.contains(c) {
                    let j = choose|j: int| 0 <= j < prev.len() && prev[j] == c;
                    assert(prev.push(x)[j] == c);
                }
                if x == c {
                    assert(prev.push(x)[prev.len() as int] == c);
                }
                if covered_names(rows, n).contains(c) && !prev.contains(c) {
                    let j = choose|j: int| 0 <= j < prev.len() + 1 && prev.push(x)[j] == c;
                    assert(j == prev.len());
                }
                if exists|k: int| 0 <= k < n && #[trigger] row_covers(rows[k], c) {
                    let k = choose|k: int| 0 <= k < n && #[trigger] row_covers(rows[k], c);
                    if k < n - 1 {
                        assert(exists|k: int| 0 <= k < n - 1 && #[trigger] row_covers(rows[k], c));
                    }
                }
            },
            None => {
                if exists|k: int| 0 <= k < n && #[trigger] row_covers(rows[k], c) {
                    let k = choose|k: int| 0 <= k < n && #[trigger] row_covers(rows[k], c);
                    assert(k < n - 1);
                    assert(exists|k: int| 0 <= k < n - 1 && #[trigger] row_covers(rows[k], c));
                }
            },
        }
    }
}

/// Every country that some row gives a usable beer price for.
fn covered_countries(rows: &Vec<CacheRow>) -> (found: Vec<String>)
    ensures
        forall|c: Seq<char>| texts(found@).contains(c) <==> covered(parsed_rows(rows@), c),
{
    let ghost prs = parsed_rows(rows@);
    let n = rows.len();
    let mut found: Vec<String> = Vec::new();
    let mut i: usize = 0;
    while i < n
        invariant
            n == rows@.len(),
            prs == parsed_rows(rows@),
            i <= n,
            texts(found@) == covered_names(prs, i as int),
        decreases n - i,
    {
        assert(prs[i as int] == rows@[i as int].parsed);
        let ghost before = found@;
        if let Some(row) = &rows[i].parsed {
            if is_usable_beer_row(row) {
                if let Some(c) = &row.country {
                    let country = numbeo_country(c.as_str()).to_owned();
                    found.push(country);
                    assert(texts(found@) =~= texts(before).push(spec_numbeo_country(c@)));
                }
            }
        }
        i = i + 1;
    }
    proof {
        assert forall|c: Seq<char>| texts(found@).contains(c) <==> covered(prs, c) by {
            lemma_covered_names(prs, n as int, c);
        }
    }
    found
}

/// Whether `v` holds the text `s`.
fn contains_text(v: &Vec<String>, s: &str) -> (r: bool)
    ensures
        r == texts(v@).contains(s@),
{
    let n = v.len();
    let mut i: usize = 0;
    while i < n
        invariant
            n == v@.len(),
            i <= n,
            forall|j: int| 0 <= j < i ==> v@[j]@ != s@,
        decreases n - i,
    {
        if same_text(v[i].as_str(), s) {
            assert(texts(v@)[i as int] == s@);
            return true;
        }
        i = i + 1;
    }
    false
}

/// Whether two lists hold the same texts in the same order.
fn same_texts(a: &Vec<String>, b: &Vec<String>) -> (r: bool)
    ensures
        r == (texts(a@) == texts(b@)),
{
    if a.len() != b.len() {
        assert(texts(a@).len() != texts(b@).len());
        return false;
    }
    let n = a.len();
    let mut i: usize = 0;
    while i < n
        invariant
            n == a@.len(),
            n == b@.len(),
            i <= n,
            forall|j: int| 0 <= j < i ==> a@[j]@ == b@[j]@,
        decreases n - i,
    {
        if !same_text(a[i].as_str(), b[i].as_str()) {
            assert(texts(a@)[i as int] != texts(b@)[i as int]);
            return false;
        }
        i = i + 1;
    }
    assert(texts(a@) =~= texts(b@));
    true
}

/// A copy of a list of texts.
fn clone_texts(v: &Vec<String>) -> (r: Vec<String>)
    ensures
        texts(r@) == texts(v@),
{
    let n = v.len();
    let mut out: Vec<String> = Vec::new();
    let mut i: usize = 0;
    while i < n
        invariant
            n == v@.len(),
            i <= n,
            texts(out@) =~= texts(v@).take(i as int),
        decreases n - i,
    {
        let ghost before = out@;
        out.push(v[i].clone());
        assert(texts(out@) =~= texts(before).push(v@[i as int]@));
        assert(texts(v@).take(i + 1) =~= texts(v@).take(i as int).push(v@[i as int]@));
        i = i + 1;
    }
    assert(texts(v@).take(n as int) =~= texts(v@));
    out
}

/// The first-row field list shown in messages about unusable caches.
pub open spec fn spec_sample_fields(rows: Seq<CacheRow>) -> Seq<char> {
    if rows.len() > 0 {
        match rows[0].keys {
            Some(k) => joined(texts(k@), ", "@),
            None => "not an object"@,
        }
    } else {
        "not an object"@
    }
}

/// The keys of the first row joined by ", ", or "not an object".
pub fn sample_fields(rows: &Vec<CacheRow>) -> (r: String)
    ensures
        r@ == spec_sample_fields(rows@),
{
    if rows.len() > 0 {
        match &rows[0].keys {
            Some(k) => join(k, ", "),
            None => "not an object".to_owned(),
        }
    } else {
        "not an object".to_owned()
    }
}

/// Why cached rows give no prices.
pub enum PriceError {
    /// No row is a usable beer price; `rows` counts the raw rows and `fields` lists the
    /// keys of the first one.
    NoBeerPrices { rows: usize, fields: String },
    /// A price belongs to a country that is not in the requested list.
    UnknownCountry { country: String },
}

/// The prices that the cache's rows give, when there is at least one and every one
/// belongs to a requested country.
pub fn cached_prices(cache: &ApifyCache) -> (r: Result<Vec<CountryPrice>, PriceError>)
    ensures
        ({
            let ps = spec_beer_prices(parsed_rows(cache.rows@));
            let known = texts(cache.countries@);
            if ps.len() == 0 {
                r matches Err(PriceError::NoBeerPrices { rows, fields }) && rows
                    == cache.rows@.len() && fields@ == spec_sample_fields(cache.rows@)
            } else if forall|i: int| 0 <= i < ps.len() ==> known.contains(#[trigger] ps[i].0) {
                r matches Ok(prices) && price_views(prices@) == ps
            } else {
                r matches Err(PriceError::UnknownCountry { country }) && exists|i: int|
                    0 <= i < ps.len() && ps[i].0 == country@ && !known.contains(ps[i].0)
                        && forall|j: int| 0 <= j < i ==> known.contains(#[trigger] ps[j].0)
            }
        }),
{
    let prices = beer_prices(&cache.rows);
    if prices.len() == 0 {
        return Err(
            PriceError::NoBeerPrices { rows: cache.rows.len(), fields: sample_fields(&cache.rows) },
        );
    }
    let ghost ps = price_views(prices@);
    let ghost known = texts(cache.countries@);
    let n = prices.len();
    let mut i: usize = 0;
    while i < n
        invariant
            n == prices@.len(),
            ps == price_views(prices@),
            ps == spec_beer_prices(parsed_rows(cache.rows@)),
            n > 0,
            known == texts(cache.countries@),
            i <= n,
            forall|j: int| 0 <= j < i ==> known.contains(#[trigger] ps[j].0),
        decreases n - i,
    {
        if !contains_text(&cache.countries, prices[i].country.as_str()) {
            assert(ps[i as int].0 == prices@[i as int].country@);
            return Err(PriceError::UnknownCountry { country: prices[i].country.clone() });
        }
        assert(ps[i as int].0 == prices@[i as int].country@);
        i = i + 1;
    }
    Ok(prices)
}

/// The number of prices among the first `n` without a salary.
pub open spec fn missing_salaries_upto(prices: Seq<PriceView>, n: int) -> nat
    decreases n,
{
    if n <= 0 {
        0
    } else if prices[n - 1].3 is None {
        missing_salaries_upto(prices, n - 1) + 1
    } else {
        missing_salaries_upto(prices, n - 1)
    }
}

/// How many prices have no matching salary.
pub fn count_missing_salaries(prices: &Vec<CountryPrice>) -> (count: usize)
    ensures
        count == missing_salaries_upto(price_views(prices@), prices@.len() as int),
{
    let ghost ps = price_views(prices@);
    let n = prices.len();
    let mut count: usize = 0;
    let mut i: usize = 0;
    while i < n
        invariant
            n == prices@.len(),
            ps == price_views(prices@),
            i <= n,
            count == missing_salaries_upto(ps, i as int),
            count <= i,
        decreases n - i,
    {
        assert(ps[i as int].3 == prices@[i as int].monthly_salary);
        if prices[i].monthly_salary.is_none() {
            count = count + 1;
        }
        i = i + 1;
    }
    count
}

/// Ways a scrape run cannot go on.
pub enum RunError {
    /// No countries were given to scrape.
    NoCountries,
    /// A run taken up again from the cache has no rows.
    NoRecoveredRows,
    /// A run succeeded but returned no rows.
    EmptySucceededRun,
}

/// How far a sync has come: the cache was just loaded, rows of an earlier run were taken
/// up again, or the run named on the command line was imported (or needed no import).
#[derive(Clone, Copy)]
pub enum Phase {
    Loaded,
    Recovered,
    Imported { recovered: bool },
}

/// Rows of an earlier run were taken up again during this sync.
pub open spec fn phase_recovered(phase: Phase) -> bool {
    match phase {
        Phase::Loaded => false,
        Phase::Recovered => true,
        Phase::Imported { recovered } => recovered,
    }
}

/// The text of an optional string slice.
pub open spec fn opt_str(o: Option<&str>) -> Option<Seq<char>> {
    match o {
        Some(s) => Some(s@),
        None => None,
    }
}

/// What a sync does next.
pub enum RunPlan {
    /// Take the rows of this earlier run up again (the cache has none yet).
    Recover(String),
    /// Import the rows of this finished run, named on the command line.
    Import(String),
    /// Read the prices from the cache; no run is started.
    UseCache,
    /// Rows were just taken up again from an earlier run: stop and let the user choose.
    RecoveredOnly,
    /// The cache has rows but none is a usable beer price: stop before paying again.
    NoBeerMatches,
    /// Follow the run that is still in progress.
    Resume(String),
    /// Start a new paid run for these countries.
    Start(Vec<String>),
}

/// What a finished run leaves to do.
pub enum RunOutcome {
    /// Read the prices from the cache.
    UseCache,
    /// The run did not succeed and the cache was not asked for: report it.
    Unfinished,
}

/// The status of a run that has ended, one way or another.
pub open spec fn spec_is_finished(status: Seq<char>) -> bool {
    status == "SUCCEEDED"@ || status == "FAILED"@ || status == "TIMED-OUT"@ || status
        == "ABORTED"@
}

/// A run is named on the command line and its rows were not imported yet.
pub open spec fn import_needed(cache: ApifyCache, resume_run_id: Option<Seq<char>>) -> bool {
    match resume_run_id {
        Some(r) => !texts(cache.imported_runs@).contains(r),
        None => false,
    }
}

/// `plan` is what `plan_run` decides for this cache.
pub open spec fn planned(
    cache: ApifyCache,
    cached_only: bool,
    resume_run_id: Option<Seq<char>>,
    phase: Phase,
    plan: RunPlan,
) -> bool {
    let pending = cache.spec_pending();
    let recovered = phase_recovered(phase);
    if phase is Loaded && cache.rows@.len() == 0 && cache.active_run_id is None
        && cache.imported_runs@.len() > 0 {
        plan matches RunPlan::Recover(id) && id@ == cache.imported_runs@.last()@
    } else if !(phase is Imported) && import_needed(cache, resume_run_id) {
        plan matches RunPlan::Import(id) && id@ == resume_run_id->0
    } else if pending.len() == 0 && cache.active_run_id is None {
        plan is UseCache
    } else if cached_only && cache.active_run_id is None {
        plan is UseCache
    } else if recovered {
        plan is RecoveredOnly
    } else if cache.rows@.len() > 0 && cache.completed@.len() == 0
        && cache.active_run_id is None {
        plan is NoBeerMatches
    } else {
        match cache.active_run_id {
            Some(id) => plan matches RunPlan::Resume(r) && r@ == id@,
            None => plan matches RunPlan::Start(p) && texts(p@) == pending,
        }
    }
}

/// Fails when there are no countries to scrape.
pub fn check_countries(countries: &Vec<String>) -> (r: Result<(), RunError>)
    ensures
        r is Err <==> countries@.len() == 0,
        r matches Err(e) ==> e is NoCountries,
{
    if countries.len() == 0 {
        Err(RunError::NoCountries)
    } else {
        Ok(())
    }
}

/// Whether a run has ended.
pub fn is_finished(status: &str) -> (r: bool)
    ensures
        r == spec_is_finished(status@),
{
    same_text(status, "SUCCEEDED") || same_text(status, "FAILED") || same_text(
        status,
        "TIMED-OUT",
    ) || same_text(status, "ABORTED")
}

/// Decides what a sync does next. Right after loading, a cache without rows and without
/// a run in progress takes up the rows of its last imported run; then a run named on the
/// command line is imported if it was not yet; then the cache is used, the sync stops, the
/// run in progress is followed, or a new paid run is started for the pending countries.
pub fn plan_run(
    cache: &ApifyCache,
    cached_only: bool,
    resume_run_id: Option<&str>,
    phase: Phase,
) -> (plan: RunPlan)
    ensures
        planned(*cache, cached_only, opt_str(resume_run_id), phase, plan),
{
    let recovered = match phase {
        Phase::Loaded => false,
        Phase::Recovered => true,
        Phase::Imported { recovered } => recovered,
    };
    let loaded = match phase {
        Phase::Loaded => true,
        _ => false,
    };
    let imported = match phase {
        Phase::Imported { .. } => true,
        _ => false,
    };
    if loaded && cache.rows.len() == 0 && cache.active_run_id.is_none()
        && cache.imported_runs.len() > 0 {
        return RunPlan::Recover(cache.imported_runs[cache.imported_runs.len() - 1].clone());
    }
    if !imported {
        if let Some(run_id) = resume_run_id {
            if !contains_text(&cache.imported_runs, run_id) {
                return RunPlan::Import(run_id.to_owned());
            }
        }
    }
    let pending = cache.pending();
    if pending.len() == 0 && cache.active_run_id.is_none() {
        RunPlan::UseCache
    } else if cached_only && cache.active_run_id.is_none() {
        RunPlan::UseCache
    } else if recovered {
        RunPlan::RecoveredOnly
    } else if cache.rows.len() > 0 && cache.completed.len() == 0 && cache.active_run_id.is_none() {
        RunPlan::NoBeerMatches
    } else {
        match &cache.active_run_id {
            Some(id) => RunPlan::Resume(id.clone()),
            None => RunPlan::Start(pending),
        }
    }
}

impl ApifyCache {
    /// Notes `run_id` as the run in progress.
    pub fn start_run(&mut self, run_id: &str)
        ensures
            final(self).active_run_id matches Some(id) && id@ == run_id@,
            final(self).countries == old(self).countries,
            final(self).completed == old(self).completed,
            final(self).imported_runs == old(self).imported_runs,
            final(self).rows == old(self).rows,
    {
        self.active_run_id = Some(run_id.to_owned());
    }

    /// Records the rows taken up again from an earlier run; fails, changing nothing,
    /// when there are none.
    pub fn recover(&mut self, run_id: &str, rows: Vec<CacheRow>) -> (r: Result<(), RunError>)
        ensures
            rows@.len() == 0 ==> (r matches Err(RunError::NoRecoveredRows) && *final(self)
                == *old(self)),
            rows@.len() > 0 ==> r is Ok && ApifyCache::recorded(
                *old(self),
                *final(self),
                run_id@,
                rows@,
                Seq::empty(),
            ) && final(self).active_run_id == old(self).active_run_id,
    {
        if rows.len() == 0 {
            return Err(RunError::NoRecoveredRows);
        }
        self.record(run_id, rows, None);
        Ok(())
    }

    /// Records the rows of a run that has ended and forgets it as the run in progress.
    /// A successful run counts every country it was asked for as done. A successful run
    /// without rows is refused and changes nothing.
    pub fn finish_run(
        &mut self,
        run_id: &str,
        status: &str,
        rows: Vec<CacheRow>,
        requested: &Vec<String>,
        cached_only: bool,
    ) -> (r: Result<RunOutcome, RunError>)
        ensures
            ({
                let succeeded = status@ == "SUCCEEDED"@;
                if succeeded && rows@.len() == 0 {
                    r matches Err(RunError::EmptySucceededRun) && *final(self) == *old(self)
                } else {
                    &&& ApifyCache::recorded(
                        *old(self),
                        *final(self),
                        run_id@,
                        rows@,
                        if succeeded {
                            texts(requested@)
                        } else {
                            Seq::empty()
                        },
                    )
                    &&& final(self).active_run_id is None
                    &&& if cached_only || succeeded {
                        r matches Ok(RunOutcome::UseCache)
                    } else {
                        r matches Ok(RunOutcome::Unfinished)
                    }
                }
            }),
    {
        let succeeded = same_text(status, "SUCCEEDED");
        if succeeded && rows.len() == 0 {
            return Err(RunError::EmptySucceededRun);
        }
        if succeeded {
            self.record(run_id, rows, Some(requested));
        } else {
            self.record(run_id, rows, None);
        }
        self.active_run_id = None;
        if cached_only || succeeded {
            Ok(RunOutcome::UseCache)
        } else {
            Ok(RunOutcome::Unfinished)
        }
    }
}

/// With `--cached-only` no new paid run is started, whatever the cache holds (a run
/// already in progress is followed, not started).
pub proof fn law_cached_only_starts_no_run(
    cache: ApifyCache,
    resume_run_id: Option<Seq<char>>,
    phase: Phase,
    plan: RunPlan,
)
    requires
        planned(cache, true, resume_run_id, phase, plan),
    ensures
        !(plan is Start),
{
}

/// A new paid run is started only when no run is in progress, some country still needs
/// scraping, no earlier run is waiting to be taken up again or imported, and no rows were
/// taken up again during this sync; it asks for exactly the countries that still need it.
pub proof fn law_new_run_asks_for_pending_only(
    cache: ApifyCache,
    cached_only: bool,
    resume_run_id: Option<Seq<char>>,
    phase: Phase,
    plan: RunPlan,
)
    requires
        planned(cache, cached_only, resume_run_id, phase, plan),
    ensures
        plan matches RunPlan::Start(p) ==> {
            &&& texts(p@) == cache.spec_pending()
            &&& cache.spec_pending().len() > 0
            &&& cache.active_run_id is None
            &&& !cached_only
            &&& !phase_recovered(phase)
            &&& !(phase is Loaded && cache.rows@.len() == 0 && cache.imported_runs@.len() > 0)
            &&& (phase is Imported || !import_needed(cache, resume_run_id))
        },
{
}

/// A country still needs scraping exactly when it is on the list and not completed.
pub proof fn law_pending_is_not_completed(cache: ApifyCache, c: Seq<char>)
    ensures
        cache.spec_pending().contains(c) <==> (texts(cache.countries@).contains(c)
            && !texts(cache.completed@).contains(c)),
{
    broadcast use vstd::seq_lib::group_filter_ensures;

    let cs = texts(cache.countries@);
    let pred = pending_pred(texts(cache.completed@));
    if cache.spec_pending().contains(c) {
        cs.lemma_filter_contains_rev(pred, c);
        let j = choose|j: int| 0 <= j < cs.filter(pred).len() && cs.filter(pred)[j] == c;
        assert(pred(cs.filter(pred)[j]));
    }
    if cs.contains(c) && !texts(cache.completed@).contains(c) {
        let i = choose|i: int| 0 <= i < cs.len() && cs[i] == c;
        cs.lemma_filter_contains(pred, i);
    }
}

/// After rows are recorded, only listed countries are completed, and a listed country is
/// completed exactly when it was completed before, a recorded row gives a usable beer
/// price for it, or it was part of the successful request.
pub proof fn law_recorded_completion(
    before: ApifyCache,
    after: ApifyCache,
    run_id: Seq<char>,
    rows: Seq<CacheRow>,
    requested: Seq<Seq<char>>,
    c: Seq<char>,
)
    requires
        ApifyCache::recorded(before, after, run_id, rows, requested),
    ensures
        texts(after.completed@).contains(c) <==> (texts(before.countries@).contains(c) && (
        texts(before.completed@).contains(c) || covered(parsed_rows(after.rows@), c)
            || requested.contains(c))),
{
    broadcast use vstd::seq_lib::group_filter_ensures;

    let cs = texts(before.countries@);
    let pred = completion_pred(texts(before.completed@), parsed_rows(after.rows@), requested);
    if cs.filter(pred).contains(c) {
        cs.lemma_filter_contains_rev(pred, c);
        let j = choose|j: int| 0 <= j < cs.filter(pred).len() && cs.filter(pred)[j] == c;
        assert(pred(cs.filter(pred)[j]));
    }
    if cs.contains(c) && pred(c) {
        let i = choose|i: int| 0 <= i < cs.len() && cs[i] == c;
        cs.lemma_filter_contains(pred, i);
    }
}

/// Recording rows never takes a listed country off the completed list.
pub proof fn law_recording_keeps_completed(
    before: ApifyCache,
    after: ApifyCache,
    run_id: Seq<char>,
    rows: Seq<CacheRow>,
    requested: Seq<Seq<char>>,
    c: Seq<char>,
)
    requires
        ApifyCache::recorded(before, after, run_id, rows, requested),
        texts(before.countries@).contains(c),
        texts(before.completed@).contains(c),
    ensures
        texts(after.completed@).contains(c),
{
    law_recorded_completion(before, after, run_id, rows, requested, c);
}

/// Partial results are kept: a listed country that a recorded row gives a usable beer
/// price for is no longer pending, whatever became of the run.
pub proof fn law_covered_country_not_pending(
    before: ApifyCache,
    after: ApifyCache,
    run_id: Seq<char>,
    rows: Seq<CacheRow>,
    requested: Seq<Seq<char>>,
    c: Seq<char>,
    i: int,
)
    requires
        ApifyCache::recorded(before, after, run_id, rows, requested),
        texts(before.countries@).contains(c),
        0 <= i < rows.len(),
        row_covers(rows[i].parsed, c),
    ensures
        !after.spec_pending().contains(c),
{
    let prs = parsed_rows(after.rows@);
    assert(prs[before.rows@.len() + i] == rows[i].parsed);
    assert(row_covers(prs[before.rows@.len() + i], c));
    law_recorded_completion(before, after, run_id, rows, requested, c);
    law_pending_is_not_completed(after, c);
}

/// A run that succeeded for exactly the pending countries leaves none pending.
pub proof fn law_successful_run_leaves_nothing_pending(
    before: ApifyCache,
    after: ApifyCache,
    run_id: Seq<char>,
    rows: Seq<CacheRow>,
)
    requires
        ApifyCache::recorded(before, after, run_id, rows, before.spec_pending()),
    ensures
        after.spec_pending().len() == 0,
{
    let cs = texts(before.countries@);
    if after.spec_pending().len() > 0 {
        let c = after.spec_pending()[0];
        assert(after.spec_pending().contains(c));
        law_pending_is_not_completed(after, c);
        law_pending_is_not_completed(before, c);
        law_recorded_completion(before, after, run_id, rows, before.spec_pending(), c);
    }
}

/// A run is listed among the imported runs once, however often its rows are recorded.
pub proof fn law_runs_listed_once(
    before: ApifyCache,
    after: ApifyCache,
    run_id: Seq<char>,
    rows: Seq<CacheRow>,
    requested: Seq<Seq<char>>,
)
    requires
        ApifyCache::recorded(before, after, run_id, rows, requested),
        texts(before.imported_runs@).no_duplicates(),
    ensures
        texts(after.imported_runs@).no_duplicates(),
        texts(after.imported_runs@).contains(run_id),
{
    let old_runs = texts(before.imported_runs@);
    if old_runs.contains(run_id) {
    } else {
        let new_runs = old_runs.push(run_id);
        assert(new_runs[old_runs.len() as int] == run_id);
        assert forall|i: int, j: int|
            0 <= i < new_runs.len() && 0 <= j < new_runs.len() && i != j implies new_runs[i]
            != new_runs[j] by {
            if i == old_runs.len() {
                assert(new_runs[j] == old_runs[j]);
            } else if j == old_runs.len() {
                assert(new_runs[i] == old_runs[i]);
            }
        }
    }
}

/// Row `r` is a usable beer price of `country` in `currency`.
pub open spec fn usable_beer_row_of(r: Option<PriceRow>, country: Seq<char>, currency: Seq<char>) -> bool {
    match r {
        Some(row) => spec_is_usable_beer_row(row) && match (row.country, row.currency) {
            (Some(c), Some(cur)) => spec_numbeo_country(c@) == country && cur@ == currency,
            _ => false,
        },
        None => false,
    }
}

/// Right after loading, a cache without rows and without a run in progress takes up the
/// rows of its last imported run before anything else: no paid run is started.
pub proof fn law_recovery_comes_first(
    cache: ApifyCache,
    cached_only: bool,
    resume_run_id: Option<Seq<char>>,
    plan: RunPlan,
)
    requires
        planned(cache, cached_only, resume_run_id, Phase::Loaded, plan),
        cache.rows@.len() == 0,
        cache.active_run_id is None,
        cache.imported_runs@.len() > 0,
    ensures
        plan matches RunPlan::Recover(id) && id@ == cache.imported_runs@.last()@,
{
}

/// A run in progress is followed, never replaced by a new one: once a run named on the
/// command line is imported, the sync resumes the run in progress (unless rows were taken
/// up again from an earlier run during this sync).
pub proof fn law_active_run_resumed(
    cache: ApifyCache,
    cached_only: bool,
    resume_run_id: Option<Seq<char>>,
    phase: Phase,
    plan: RunPlan,
)
    requires
        planned(cache, cached_only, resume_run_id, phase, plan),
        cache.active_run_id is Some,
        !phase_recovered(phase),
    ensures
        plan is Import || (plan matches RunPlan::Resume(id) && id@ == cache.active_run_id->0@),
{
}

/// Every price comes from a usable grocery beer row of its country, in its currency and
/// with its amount; its salary, when there is one, comes from a positive net monthly
/// salary row of the same country and the same currency.
pub proof fn law_prices_come_from_usable_rows(rows: Seq<Option<PriceRow>>, n: int, k: int)
    requires
        0 <= n <= rows.len(),
        0 <= k < beer_prices_upto(rows, n).len(),
    ensures
        ({
            let p = beer_prices_upto(rows, n)[k];
            &&& exists|i: int|
                0 <= i < n && usable_beer_row_of(rows[i], p.0, p.1) && amount_bits(rows[i])
                    == p.2
            &&& p.3 matches Some(b) ==> exists|j: int|
                0 <= j < rows.len() && salary_key(rows[j]) == Some((p.0, p.1)) && amount_bits(
                    rows[j],
                ) == b
        }),
    decreases n,
{
    let prev = beer_prices_upto(rows, n - 1);
    if k < prev.len() {
        law_prices_come_from_usable_rows(rows, n - 1, k);
        assert(beer_prices_upto(rows, n)[k] == prev[k]);
    } else {
        let p = beer_prices_upto(rows, n)[k];
        assert(beer_entry(rows, n - 1) == Some(p));
        match salary_for(rows, rows.len() as int, p.0, p.1) {
            Some(j) => {
                lemma_salary_for(rows, rows.len() as int, p.0, p.1);
            },
            None => {},
        }
    }
}

/// Once some country is covered, a sync without `--cached-only` that has nothing to take
/// up again, nothing to import and no run in progress starts a new paid run for exactly
/// the countries still pending; stopping for want of any beer price happens only while no
/// country is completed.
pub proof fn law_missing_countries_are_requested(
    cache: ApifyCache,
    resume_run_id: Option<Seq<char>>,
    phase: Phase,
    plan: RunPlan,
)
    requires
        planned(cache, false, resume_run_id, phase, plan),
        cache.active_run_id is None,
        !phase_recovered(phase),
        !(phase is Loaded && cache.rows@.len() == 0 && cache.imported_runs@.len() > 0),
        phase is Imported || !import_needed(cache, resume_run_id),
        cache.spec_pending().len() > 0,
        cache.completed@.len() > 0,
    ensures
        plan matches RunPlan::Start(p) && texts(p@) == cache.spec_pending(),
{
}

/// The sync stops for want of any beer price only when the cache has rows, no country is
/// completed and no run is in progress.
pub proof fn law_no_beer_matches_only_without_completed(
    cache: ApifyCache,
    cached_only: bool,
    resume_run_id: Option<Seq<char>>,
    phase: Phase,
    plan: RunPlan,
)
    requires
        planned(cache, cached_only, resume_run_id, phase, plan),
        plan is NoBeerMatches,
    ensures
        cache.rows@.len() > 0,
        cache.completed@.len() == 0,
        cache.active_run_id is None,
        !cached_only,
{
}

/// A beer row is a national price ("country_price", not a city's), from the "Markets"
/// group, of the item "Domestic Beer (0.5 Liter Bottle)" up to ASCII case.
pub proof fn law_beer_rows_are_national_market_prices(row: PriceRow)
    ensures
        spec_is_beer_row(row) ==> {
            &&& row.kind matches Some(k) && k@ == "country_price"@
            &&& row.category_group matches Some(g) && g@ == "Markets"@
            &&& row.item_name matches Some(t) && ascii_lower(t@) == ascii_lower(
                "Domestic Beer (0.5 Liter Bottle)"@,
            )
        },
{
}

/// Row `r` is a national ("country_price") row of the group `group` whose page title,
/// without "Cost of Living in ", is `country`.
pub open spec fn national_row_of(r: Option<PriceRow>, group: Seq<char>, country: Seq<char>) -> bool {
    match r {
        Some(row) => {
            &&& row.kind matches Some(k) && k@ == "country_price"@
            &&& row.category_group matches Some(g) && g@ == group
            &&& row.country matches Some(t) && without_prefix(t@, "Cost of Living in "@) == country
        },
        None => false,
    }
}

/// A country is covered only by a national ("country_price") grocery beer row whose page
/// title names it: a city's price never covers its country.
pub proof fn law_only_national_rows_cover(rows: Seq<Option<PriceRow>>, c: Seq<char>)
    ensures
        covered(rows, c) ==> exists|i: int|
            0 <= i < rows.len() && #[trigger] national_row_of(rows[i], "Markets"@, c),
{
    if covered(rows, c) {
        let i = choose|i: int| 0 <= i < rows.len() && #[trigger] row_covers(rows[i], c);
        assert(national_row_of(rows[i], "Markets"@, c));
    }
}

/// Every price in the result is the entry of some row `i`.
proof fn lemma_price_entry(rows: Seq<Option<PriceRow>>, n: int, k: int)
    requires
        0 <= n <= rows.len(),
        0 <= k < beer_prices_upto(rows, n).len(),
    ensures
        exists|i: int|
            0 <= i < n && #[trigger] beer_entry(rows, i) == Some(beer_prices_upto(rows, n)[k]),
    decreases n,
{
    let prev = beer_prices_upto(rows, n - 1);
    if k < prev.len() {
        lemma_price_entry(rows, n - 1, k);
        assert(beer_prices_upto(rows, n)[k] == prev[k]);
    } else {
        assert(beer_entry(rows, n - 1) == Some(beer_prices_upto(rows, n)[k]));
    }
}

/// Every price comes from a national ("country_price") grocery row of its country: city
/// prices never become a country's price.
pub proof fn law_prices_come_from_national_rows(rows: Seq<Option<PriceRow>>, k: int)
    requires
        0 <= k < spec_beer_prices(rows).len(),
    ensures
        exists|i: int|
            0 <= i < rows.len() && #[trigger] national_row_of(
                rows[i],
                "Markets"@,
                spec_beer_prices(rows)[k].0,
            ),
{
    lemma_price_entry(rows, rows.len() as int, k);
    let i = choose|i: int|
        0 <= i < rows.len() && #[trigger] beer_entry(rows, i) == Some(spec_beer_prices(rows)[k]);
    assert(national_row_of(rows[i], "Markets"@, spec_beer_prices(rows)[k].0));
}

/// Row `r` is a national net monthly salary with a finite amount above zero, of the
/// country whose page title, without "Cost of Living in ", is `country`, in `currency`.
pub open spec fn net_salary_row_of(r: Option<PriceRow>, country: Seq<char>, currency: Seq<char>) -> bool {
    &&& national_row_of(r, "Salaries And Financing"@, country)
    &&& r matches Some(row)
    &&& row.item_name matches Some(t) && ascii_lower(t@) == ascii_lower(
        "Average Monthly Net Salary (After Tax)"@,
    )
    &&& row.avg_price matches Some(a) && spec_positive_finite(a)
    &&& row.currency matches Some(cur) && cur@ == currency
}

/// A price gets a salary whenever the dataset has a positive net monthly salary row of the
/// same country (page title "Cost of Living in <country>" or the bare name) in the same
/// currency; the salary is the amount of the last such row, which is at or after it.
pub proof fn law_salary_of_same_country_is_found(rows: Seq<Option<PriceRow>>, k: int, j: int)
    requires
        0 <= k < spec_beer_prices(rows).len(),
        0 <= j < rows.len(),
        net_salary_row_of(rows[j], spec_beer_prices(rows)[k].0, spec_beer_prices(rows)[k].1),
    ensures
        ({
            let p = spec_beer_prices(rows)[k];
            exists|l: int|
                j <= l < rows.len() && #[trigger] net_salary_row_of(rows[l], p.0, p.1) && p.3
                    == Some(amount_bits(rows[l]))
        }),
{
    let p = spec_beer_prices(rows)[k];
    lemma_price_entry(rows, rows.len() as int, k);
    let i = choose|i: int| 0 <= i < rows.len() && #[trigger] beer_entry(rows, i) == Some(p);
    assert(salary_key(rows[j]) == Some((p.0, p.1)));
    lemma_salary_for(rows, rows.len() as int, p.0, p.1);
    let l = salary_for(rows, rows.len() as int, p.0, p.1)->0;
    assert(j <= l);
    assert(net_salary_row_of(rows[l], p.0, p.1));
}

} // verus!
