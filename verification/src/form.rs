//! Splitting form-encoded data into its name/value pairs.

use vstd::prelude::*;

verus! {

/// The name/value pairs that `url::form_urlencoded::parse` reads out of
/// `input`, in the order in which they stand there.
pub uninterp spec fn form_urlencoded_pairs(input: Seq<u8>) -> Seq<(Seq<char>, Seq<char>)>;

/// Reads the name/value pairs out of `input`, by
/// `url::form_urlencoded::parse`.
///
/// Trusted: the pairs are a function of the bytes of `input` and of nothing
/// else. What they are is left to `url`; `form_urlencoded_pairs` is only
/// the name by which contracts speak of them.
#[verifier::external_body]
pub(crate) fn parse_pairs(input: &[u8]) -> (pairs: Vec<(String, String)>)
    ensures
        pairs.deep_view() == form_urlencoded_pairs(input@),
{
    url::form_urlencoded::parse(input).into_owned().collect()
}

} // verus!
