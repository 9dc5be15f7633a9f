//! The query string of a request, and the address that it asks for.

use vstd::prelude::*;

verus! {

/// The name and value pairs that `serde_urlencoded::from_str` reads from a
/// query string, in the order in which they stand there; nothing where it
/// rejects the string.
pub uninterp spec fn query_pairs(query: Seq<char>) -> Option<Seq<(Seq<char>, Seq<char>)>>;

/// Reads a query string as `application/x-www-form-urlencoded` pairs.
///
/// Calls `serde_urlencoded::from_str` for a vector of pairs of strings.
/// Trusted: what it returns depends on the query string alone, and is what
/// [`query_pairs`] names; a rejected string gives `None`.
#[verifier::external_body]
fn parse_query(query: &str) -> (r: Option<Vec<(String, String)>>)
    ensures
        query_pairs(query@) == match r {
            Some(pairs) => Some(pairs.deep_view()),
            None => None,
        },
{
    serde_urlencoded::from_str::<Vec<(String, String)>>(query).ok()
}

/// The name under which a query carries the address.
pub open spec fn address_parameter() -> Seq<char> {
    seq!['i', 'p']
}

/// The address that a query with the pairs `pairs` asks for: the value of
/// its first pair, where that pair is named `ip`.
pub open spec fn address_of(pairs: Seq<(Seq<char>, Seq<char>)>) -> Option<Seq<char>> {
    if pairs.len() > 0 && pairs[0].0 == address_parameter() {
        Some(pairs[0].1)
    } else {
        None
    }
}

/// The address that the query string `query` asks for.
pub open spec fn queried_address(query: Seq<char>) -> Option<Seq<char>> {
    match query_pairs(query) {
        Some(pairs) => address_of(pairs),
        None => None,
    }
}

/// The text of `r`, if it holds one.
pub open spec fn text_of(r: Option<String>) -> Option<Seq<char>> {
    match r {
        Some(s) => Some(s@),
        None => None,
    }
}

/// Picks the address out of the pairs of a query.
pub fn first_address(pairs: &Vec<(String, String)>) -> (r: Option<String>)
    ensures
        text_of(r) == address_of(pairs.deep_view()),
{
    proof {
        reveal_strlit("ip");
        assert("ip"@ =~= address_parameter());
    }
    if pairs.len() == 0 {
        return None;
    }
    let name = "ip".to_owned();
    let ip = &pairs[0];
    assert(pairs.deep_view()[0] == (ip.0@, ip.1@));
    if ip.0 == name {
        Some(ip.1.clone())
    } else {
        None
    }
}

/// Picks the address out of a query string.
pub fn query_address(query: &str) -> (r: Option<String>)
    ensures
        text_of(r) == queried_address(query@),
{
    match parse_query(query) {
        Some(params) => first_address(&params),
        None => None,
    }
}

} // verus!
