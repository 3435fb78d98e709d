//! URL parsing, through the `url` crate.

use vstd::prelude::*;

verus! {

/// What `url::Url::parse` makes of a text: the URL's serialization, or the
/// message of the parse error.
pub uninterp spec fn url_parse(text: Seq<char>) -> Result<Seq<char>, Seq<char>>;

/// `url::Url::parse`, giving the parsed URL's serialization
/// (`Url::into_string`) or the error's `Display` text. Both depend on the
/// text alone and are named by [`url_parse`]; nothing else is claimed of
/// them.
#[verifier::external_body]
pub(crate) fn parse_url(text: &str) -> (r: Result<String, String>)
    ensures
        url_result_view(r) == url_parse(text@),
{
    match url::Url::parse(text) {
        Ok(u) => Ok(u.into_string()),
        Err(e) => Err(e.to_string()),
    }
}

/// The parse result as library values.
pub open spec fn url_result_view(r: Result<String, String>) -> Result<Seq<char>, Seq<char>> {
    match r {
        Ok(u) => Ok(u@),
        Err(e) => Err(e@),
    }
}

} // verus!
