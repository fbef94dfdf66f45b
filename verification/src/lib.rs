//! Beer affordability data: selecting Numbeo prices, tracking scrape progress,
//! and preparing Craft datapoints.
pub mod countries;
pub mod float_bits;
pub mod fx;
pub mod gql;
pub mod json;
pub mod numbeo;
pub mod push_countries;
pub mod sync_datapoints;
pub mod text;
