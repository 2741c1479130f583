use vstd::prelude::*;

verus! {

/// The canonical form of a URL string: its parsed, normalized serialization
/// where it parses as a URL, the string itself where it does not. A function
/// of the characters alone.
pub uninterp spec fn url_canon(s: Seq<char>) -> Seq<char>;

/// Relies on url::Url: parsing normalizes a URL and equality compares the
/// normalized serializations, both functions of the input characters alone.
/// Two URL strings are equivalent when their canonical forms agree.
#[verifier::external_body]
pub fn urls_equivalent(a: &str, b: &str) -> (r: bool)
    ensures
        r == (url_canon(a@) == url_canon(b@)),
{
    match (url::Url::parse(a), url::Url::parse(b)) {
        (Ok(x), Ok(y)) => x == y,
        _ => a == b,
    }
}

} // verus!
