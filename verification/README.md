# beerdata

Collects country-level beer affordability data: Numbeo grocery beer prices and net
monthly salaries scraped through Apify, USD exchange rates, and Craft CMS datapoints.

- `src/` is the verified library (Verus). It decides which scraped rows are usable beer
  prices and salaries, tracks which countries an Apify cache covers and what a sync run
  does next, looks up exchange rates, reads Craft's answers, and chooses which datapoints
  to create. Amounts are carried as IEEE 754 bit patterns together with the outcome of
  comparing them; the library does no floating-point arithmetic.
- `app/` is the command-line program around it: argument parsing, HTTP, files, JSON
  (de)serialisation and the floating-point conversions to USD.
- `tests/` exercises the library on concrete values.
