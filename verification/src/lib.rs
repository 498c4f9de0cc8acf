//! A MediaWiki client and the data transformations of a wiki maintenance bot,
//! with the request-building, login and data-shaping logic verified.

pub mod card_data;
pub mod client;
pub mod error;
pub mod http;
pub mod json;
pub mod json_text;
pub mod listing;
pub mod response;
pub mod skylords;
pub mod text;
pub mod upload;
