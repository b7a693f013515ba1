//! # query_api
//! All necessery functions for appliying query api to json results.
pub mod fields;
pub mod filter;
pub mod paginate;
pub mod q;
pub mod sort;
