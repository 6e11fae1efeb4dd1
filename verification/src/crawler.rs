//! The crawler-facing data shapes and the search-engine URL fan-out built
//! from an encoded query.  Fetching and HTML extraction live outside the
//! verified library.

use vstd::prelude::*;

verus! {

/// What one visited page reduces to.
pub struct PageContent {
    pub url: String,
    pub title: Option<String>,
    pub text: String,
    pub links: Vec<String>,
}

/// What percent-encoding a query yields.  Relies on `urlencoding::encode`
/// being a function of the characters alone.
pub uninterp spec fn url_encoded(s: Seq<char>) -> Seq<char>;

/// Relies on `urlencoding::encode`: the percent-encoded form of the query,
/// depending on its characters alone.
#[verifier::external_body]
fn encode_query(s: &str) -> (r: String)
    ensures
        r@ == url_encoded(s@),
{
    urlencoding::encode(s).into_owned()
}

/// The fixed search-engine URL patterns, each a prefix and a suffix around
/// the encoded query.
pub open spec fn spec_search_urls(q: Seq<char>) -> Seq<Seq<char>> {
    seq![
        "https://www.google.com/search?q="@ + q,
        "https://www.google.com/search?q="@ + q + "&tbm=nws"@,
        "https://www.google.com/search?q="@ + q + "+review"@,
        "https://duckduckgo.com/?q="@ + q,
        "https://duckduckgo.com/?q="@ + q + "+guide"@,
        "https://duckduckgo.com/?q="@ + q + "&t=h_"@,
        "https://duckduckgo.com/?q="@ + q + "+tutorial"@,
        "https://www.bing.com/search?q="@ + q,
        "https://www.bing.com/search?q="@ + q + "+news"@,
        "https://www.yahoo.com/search?p="@ + q,
        "https://www.yahoo.com/search?p="@ + q + "+news"@,
        "https://www.google.com/search?q="@ + q + "+site:twitter.com"@,
        "https://www.google.com/search?q="@ + q + "+site:reddit.com"@,
        "https://www.google.com/search?q="@ + q + "+site:facebook.com"@,
    ]
}

/// One assembled search URL without a suffix.
fn make_url2(prefix: &str, q: &str) -> (r: String)
    ensures
        r@ == prefix@ + q@,
{
    let mut r = String::new();
    r.append(prefix);
    r.append(q);
    r
}

/// One assembled search URL.
fn make_url(prefix: &str, q: &str, suffix: &str) -> (r: String)
    ensures
        r@ == prefix@ + q@ + suffix@,
{
    let mut r = String::new();
    r.append(prefix);
    r.append(q);
    r.append(suffix);
    r
}

/// The search URL fan-out for a query, one URL per engine variation, each
/// around the percent-encoded query, as `spec_search_urls` describes.
pub fn search_urls(query: &str) -> (r: Vec<String>)
    ensures
        crate::memory::strings_view(r@) == spec_search_urls(url_encoded(query@)),
{
    let e = encode_query(query);
    let q = e.as_str();
    let mut r: Vec<String> = Vec::new();
    r.push(make_url2("https://www.google.com/search?q=", q));
    r.push(make_url("https://www.google.com/search?q=", q, "&tbm=nws"));
    r.push(make_url("https://www.google.com/search?q=", q, "+review"));
    r.push(make_url2("https://duckduckgo.com/?q=", q));
    r.push(make_url("https://duckduckgo.com/?q=", q, "+guide"));
    r.push(make_url("https://duckduckgo.com/?q=", q, "&t=h_"));
    r.push(make_url("https://duckduckgo.com/?q=", q, "+tutorial"));
    r.push(make_url2("https://www.bing.com/search?q=", q));
    r.push(make_url("https://www.bing.com/search?q=", q, "+news"));
    r.push(make_url2("https://www.yahoo.com/search?p=", q));
    r.push(make_url("https://www.yahoo.com/search?p=", q, "+news"));
    r.push(make_url("https://www.google.com/search?q=", q, "+site:twitter.com"));
    r.push(make_url("https://www.google.com/search?q=", q, "+site:reddit.com"));
    r.push(make_url("https://www.google.com/search?q=", q, "+site:facebook.com"));
    proof {
        assert forall|k: int|
            0 <= k < crate::memory::strings_view(r@).len() implies crate::memory::strings_view(
            r@,
        )[k] == spec_search_urls(url_encoded(query@))[k] by {
            assert(r@[k]@ == spec_search_urls(url_encoded(query@))[k]);
        }
        assert(crate::memory::strings_view(r@) =~= spec_search_urls(url_encoded(query@)));
    }
    r
}

} // verus!
