//! Price extraction for retail storefronts: compound identifiers, the two
//! extraction strategies of the `eva-ua` store and the record they produce.

pub mod config;
pub mod decimal;
pub mod error;
pub mod escape;
pub mod identifier;
pub mod json;
pub mod numeral;
pub mod search;
pub mod store;
pub mod structured;
pub mod text;
pub mod web;
