//! Decoding a query string or a request body into its map.

use crate::error::UrlDecodingError;
use crate::form::{form_urlencoded_pairs, parse_pairs};
use crate::percent::{has_no_escape, lemma_percent_decoded_without_escape, percent_decode_utf8, percent_decoded};
use crate::query_map::{combine_duplicates, grouped, QueryMap};
use vstd::prelude::*;
use vstd::string::*;
use vstd::utf8::*;

verus! {

/// What decoding gives: the map, or the reason why there is none.
pub type QueryResult = Result<QueryMap, UrlDecodingError>;

/// What a result says, with the map taken as the map it stands for.
pub open spec fn outcome(result: QueryResult) -> Result<
    Map<Seq<char>, Seq<Seq<char>>>,
    UrlDecodingError,
> {
    match result {
        Ok(map) => Ok(map@),
        Err(error) => Err(error),
    }
}

/// The bytes of `data` once the escapes in them are resolved.
pub open spec fn resolved(data: Seq<char>) -> Seq<u8> {
    percent_decoded(encode_utf8(data))
}

/// What `data` decodes to. Empty data is an error. So is data whose
/// resolved bytes are not UTF-8. Anything else is split into name/value
/// pairs, and the pairs are grouped by name.
pub open spec fn decoded(data: Seq<char>) -> Result<
    Map<Seq<char>, Seq<Seq<char>>>,
    UrlDecodingError,
> {
    if data.len() == 0 {
        Err(UrlDecodingError::EmptyQuery)
    } else if !valid_utf8(resolved(data)) {
        Err(UrlDecodingError::MalformedQuery)
    } else {
        Ok(grouped(form_urlencoded_pairs(resolved(data))))
    }
}

/// What the query part of a URL decodes to, where `None` says that the URL
/// has no query part.
pub open spec fn decoded_query(query: Option<&str>) -> Result<
    Map<Seq<char>, Seq<Seq<char>>>,
    UrlDecodingError,
> {
    match query {
        Some(data) => decoded(data@),
        None => Err(UrlDecodingError::EmptyQuery),
    }
}

/// What a request body decodes to, given what reading it gave: the text,
/// `None` for a request without a body, or the error of the reading.
pub open spec fn decoded_body(body: Result<Option<String>, bodyparser::BodyError>) -> Result<
    Map<Seq<char>, Seq<Seq<char>>>,
    UrlDecodingError,
> {
    match body {
        Ok(Some(data)) => decoded(data@),
        Ok(None) => decoded(Seq::empty()),
        Err(error) => Err(UrlDecodingError::BodyError(error)),
    }
}

/// Decoding is a function of the data: two results of decoding the same
/// data say the same.
pub proof fn lemma_decoding_is_deterministic(
    data: Seq<char>,
    first: QueryResult,
    second: QueryResult,
)
    requires
        outcome(first) == decoded(data),
        outcome(second) == decoded(data),
    ensures
        outcome(first) == outcome(second),
{
}

/// Data that is not empty and holds no escape is never refused, whatever
/// percent signs it holds: they are kept, and the pairs are read from the
/// bytes of the data as they are.
pub proof fn lemma_stray_percent_signs_are_kept(data: Seq<char>)
    requires
        data.len() > 0,
        has_no_escape(encode_utf8(data)),
    ensures
        resolved(data) == encode_utf8(data),
        decoded(data) == Ok::<Map<Seq<char>, Seq<Seq<char>>>, UrlDecodingError>(
            grouped(form_urlencoded_pairs(encode_utf8(data))),
        ),
{
    lemma_percent_decoded_without_escape(encode_utf8(data));
    encode_utf8_valid_utf8(data);
}

/// Decodes URL-encoded `data` into the map from each name to its values.
pub fn create_param_hashmap(data: &str) -> (result: QueryResult)
    ensures
        outcome(result) == decoded(data@),
{
    if data.is_empty() {
        return Err(UrlDecodingError::EmptyQuery);
    }
    let text = match percent_decode_utf8(data.as_bytes()) {
        Some(text) => text,
        None => {
            return Err(UrlDecodingError::MalformedQuery);
        },
    };
    proof {
        decode_utf8_encode_utf8(resolved(data@));
    }
    Ok(combine_duplicates(parse_pairs(text.as_str().as_bytes())))
}

/// Decodes the query part of a URL.
pub struct UrlEncodedQuery;

impl UrlEncodedQuery {
    /// Decodes `query`, the query part of a URL, or `None` where the URL
    /// has none.
    pub fn eval(query: Option<&str>) -> (result: QueryResult)
        ensures
            outcome(result) == decoded_query(query),
    {
        match query {
            Some(data) => create_param_hashmap(data),
            None => Err(UrlDecodingError::EmptyQuery),
        }
    }
}

/// Decodes the body of a request.
pub struct UrlEncodedBody;

impl UrlEncodedBody {
    /// Decodes `body`, which is what reading the request body gave. An
    /// error of the reading is handed on before anything is decoded, and a
    /// request without a body is decoded as empty data.
    pub fn eval(body: Result<Option<String>, bodyparser::BodyError>) -> (result: QueryResult)
        ensures
            outcome(result) == decoded_body(body),
    {
        match body {
            Ok(Some(data)) => create_param_hashmap(data.as_str()),
            Ok(None) => {
                proof {
                    reveal_strlit("");
                    assert(""@ =~= Seq::<char>::empty());
                }
                create_param_hashmap("")
            },
            Err(error) => Err(UrlDecodingError::BodyError(error)),
        }
    }
}

} // verus!
