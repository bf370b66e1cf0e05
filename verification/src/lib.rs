//! Decoding of URL-encoded data, as found in URL query strings and in the
//! bodies of form submissions, into a map from each name to its values.

pub mod decode;
pub mod error;
pub mod form;
pub mod percent;
pub mod query_map;

pub use decode::{create_param_hashmap, QueryResult, UrlEncodedBody, UrlEncodedQuery};
pub use error::UrlDecodingError;
pub use query_map::{combine_duplicates, QueryMap};
