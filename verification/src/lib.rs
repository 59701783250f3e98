//! Client-side building blocks for the arXiv search API: a query-string
//! builder and a translator from the Atom-style feed XML into typed
//! search-result records.

pub mod model;
pub mod numeral;
pub mod strutil;
pub mod query;
pub mod err;
pub mod xml;
pub mod feed;

pub use err::ArxivError;
pub use feed::api_url;
pub use feed::derive_pdf_url;
pub use feed::response_to_items;
pub use feed::Author;
pub use feed::Feed;
pub use feed::SearchResultItem;
pub use feed::Timestamp;
pub use query::QueryBuilder;
pub use query::QueryModel;
