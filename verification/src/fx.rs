//! A snapshot of USD exchange rates: units of each currency per USD.
use vstd::prelude::*;

use crate::float_bits::{positive_finite, spec_positive_finite, ONE};
use crate::text::{ascii_lower, same_text, to_ascii_lowercase};

verus! {

/// The rate of one currency: its IEEE 754 double-precision bit pattern, which the library
/// compares but does no arithmetic on.
pub struct Rate {
    /// The lower-case currency code, as the rate feed writes it.
    pub code: String,
    /// The bit pattern of the units of this currency per USD.
    pub bits: u64,
}

/// A single snapshot of units of each currency per USD.
pub struct UsdRates {
    pub date: String,
    pub usd: Vec<Rate>,
}

impl UsdRates {
    /// No two rates are filed under the same code, as in the feed's JSON object.
    pub open spec fn codes_distinct(self) -> bool {
        forall|i: int, j: int|
            0 <= i < j < self.usd@.len() ==> (#[trigger] self.usd@[i]).code@ != (
            #[trigger] self.usd@[j]).code@
    }
}

/// Why a currency has no usable rate.
pub enum RateError {
    /// The snapshot has no rate for the currency.
    Missing,
    /// The snapshot's rate for the currency is not a finite number above zero.
    Invalid,
}

/// Why a snapshot cannot be used.
pub enum SnapshotError {
    /// The date is empty, or USD is not worth exactly one USD (pattern `ONE`).
    Invalid,
    /// The rate of USD itself is missing or unusable.
    Rate(RateError),
}

/// The position of the first rate filed under `code`.
pub open spec fn rate_index(rates: Seq<Rate>, code: Seq<char>) -> Option<int>
    decreases rates.len(),
{
    if rates.len() == 0 {
        None
    } else if rates[0].code@ == code {
        Some(0)
    } else {
        match rate_index(rates.drop_first(), code) {
            Some(i) => Some(i + 1),
            None => None,
        }
    }
}

proof fn lemma_rate_index(rates: Seq<Rate>, code: Seq<char>)
    ensures
        match rate_index(rates, code) {
            Some(i) => 0 <= i < rates.len() && rates[i].code@ == code && forall|j: int|
                0 <= j < i ==> rates[j].code@ != code,
            None => forall|j: int| 0 <= j < rates.len() ==> rates[j].code@ != code,
        },
    decreases rates.len(),
{
    if rates.len() > 0 {
        lemma_rate_index(rates.drop_first(), code);
        assert forall|j: int| 0 < j < rates.len() implies rates[j] == rates.drop_first()[j - 1] by {}
    }
}

impl UsdRates {
    /// The rate of `currency`, looked up by its lower-case code.
    pub open spec fn spec_local_per_usd(self, currency: Seq<char>) -> Result<u64, RateError> {
        match rate_index(self.usd@, ascii_lower(currency)) {
            None => Err(RateError::Missing),
            Some(i) => if spec_positive_finite(self.usd@[i].bits) {
                Ok(self.usd@[i].bits)
            } else {
                Err(RateError::Invalid)
            },
        }
    }

    /// The snapshot has a date and USD is worth exactly one USD.
    pub open spec fn spec_validate(self) -> Result<(), SnapshotError> {
        if self.date@.len() == 0 {
            Err(SnapshotError::Invalid)
        } else {
            match rate_index(self.usd@, "usd"@) {
                None => Err(SnapshotError::Rate(RateError::Missing)),
                Some(i) => if !spec_positive_finite(self.usd@[i].bits) {
                    Err(SnapshotError::Rate(RateError::Invalid))
                } else if self.usd@[i].bits != ONE {
                    Err(SnapshotError::Invalid)
                } else {
                    Ok(())
                },
            }
        }
    }

    /// The units of `currency` per USD; the code is matched without regard to ASCII case.
    pub fn local_per_usd(&self, currency: &str) -> (r: Result<u64, RateError>)
        ensures
            r == self.spec_local_per_usd(currency@),
    {
        let code = to_ascii_lowercase(currency);
        proof {
            lemma_rate_index(self.usd@, code@);
        }
        let n = self.usd.len();
        let mut i: usize = 0;
        while i < n
            invariant
                n == self.usd@.len(),
                i <= n,
                code@ == ascii_lower(currency@),
                forall|j: int| 0 <= j < i ==> self.usd@[j].code@ != code@,
                match rate_index(self.usd@, code@) {
                    Some(k) => i <= k < n && self.usd@[k].code@ == code@,
                    None => true,
                },
            decreases n - i,
        {
            if same_text(self.usd[i].code.as_str(), code.as_str()) {
                proof {
                    lemma_rate_index(self.usd@, code@);
                }
                let rate = &self.usd[i];
                if positive_finite(rate.bits) {
                    return Ok(rate.bits);
                } else {
                    return Err(RateError::Invalid);
                }
            }
            i = i + 1;
        }
        Err(RateError::Missing)
    }

    /// Checks that the snapshot has a date and that USD is worth exactly one USD.
    pub fn validate(&self) -> (r: Result<(), SnapshotError>)
        ensures
            r == self.spec_validate(),
    {
        if self.date.as_str().is_empty() {
            return Err(SnapshotError::Invalid);
        }
        let usd = "USD";
        proof {
            reveal_strlit("USD");
            reveal_strlit("usd");
            assert(ascii_lower(usd@) =~= "usd"@);
            lemma_rate_index(self.usd@, "usd"@);
        }
        match self.local_per_usd(usd) {
            Err(e) => Err(SnapshotError::Rate(e)),
            Ok(_) => {
                if self.usd_is_one() {
                    Ok(())
                } else {
                    Err(SnapshotError::Invalid)
                }
            },
        }
    }

    /// Whether the first rate filed under "usd" is exactly one.
    fn usd_is_one(&self) -> (r: bool)
        requires
            rate_index(self.usd@, "usd"@) is Some,
        ensures
            r == (self.usd@[rate_index(self.usd@, "usd"@)->0].bits == ONE),
    {
        proof {
            lemma_rate_index(self.usd@, "usd"@);
        }
        let n = self.usd.len();
        let mut i: usize = 0;
        while i < n
            invariant
                n == self.usd@.len(),
                i <= n,
                rate_index(self.usd@, "usd"@) is Some,
                forall|j: int| 0 <= j < i ==> self.usd@[j].code@ != "usd"@,
                i <= rate_index(self.usd@, "usd"@)->0 < n,
                self.usd@[rate_index(self.usd@, "usd"@)->0].code@ == "usd"@,
            decreases n - i,
        {
            if same_text(self.usd[i].code.as_str(), "usd") {
                proof {
                    lemma_rate_index(self.usd@, "usd"@);
                }
                return self.usd[i].bits == ONE;
            }
            i = i + 1;
        }
        false
    }
}

/// Currency codes are matched without regard to ASCII case: "EUR" and "eur" have the
/// same rate.
pub proof fn law_rate_lookup_ignores_case(rates: UsdRates, a: Seq<char>, b: Seq<char>)
    requires
        ascii_lower(a) == ascii_lower(b),
    ensures
        rates.spec_local_per_usd(a) == rates.spec_local_per_usd(b),
{
}

/// A rate is handed out only when the snapshot has one for the currency and it is
/// finite and positive.
pub proof fn law_rates_handed_out_are_usable(rates: UsdRates, currency: Seq<char>)
    ensures
        rates.spec_local_per_usd(currency) is Ok ==> exists|i: int|
            0 <= i < rates.usd@.len() && rates.usd@[i].code@ == ascii_lower(currency)
                && spec_positive_finite(rates.usd@[i].bits) && rates.spec_local_per_usd(currency) == Ok::<
                u64,
                RateError,
            >(rates.usd@[i].bits),
{
    lemma_rate_index(rates.usd@, ascii_lower(currency));
}

/// With distinct codes, a currency's rate is the one filed under its lower-case code.
pub proof fn law_distinct_codes_give_the_listed_rate(rates: UsdRates, currency: Seq<char>, i: int)
    requires
        rates.codes_distinct(),
        0 <= i < rates.usd@.len(),
        rates.usd@[i].code@ == ascii_lower(currency),
    ensures
        rates.spec_local_per_usd(currency) == if spec_positive_finite(rates.usd@[i].bits) {
            Ok::<u64, RateError>(rates.usd@[i].bits)
        } else {
            Err(RateError::Invalid)
        },
{
    lemma_rate_index(rates.usd@, ascii_lower(currency));
    let k = rate_index(rates.usd@, ascii_lower(currency))->0;
    if k < i {
        assert(rates.usd@[k].code@ != rates.usd@[i].code@);
    } else if k > i {
        assert(rates.usd@[i].code@ != rates.usd@[k].code@);
    }
}

} // verus!
