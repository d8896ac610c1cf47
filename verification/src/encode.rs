//! Encoding of a target URL, its query string and a JSON body.

use vstd::prelude::*;

use crate::text::byte_len;
use crate::text::byte_length;

verus! {

/// Longest target URL, in bytes, to which a query is added.
pub const MAX_URL_BYTES: usize = 0x10_0000;

/// Largest total size, in bytes, of the names and values that go into a query; also the
/// largest number of them.
pub const MAX_QUERY_BYTES: usize = 0x1000_0000;

/// Total number of bytes of the names and values in `pairs`.
pub open spec fn pairs_byte_len(pairs: Seq<(Seq<char>, Seq<char>)>) -> nat
    decreases pairs.len(),
{
    if pairs.len() == 0 {
        0
    } else {
        pairs_byte_len(pairs.drop_last()) + byte_len(pairs.last().0) + byte_len(pairs.last().1)
    }
}

/// Whether `base` and `pairs` are small enough for a URL with a query: a URL is held
/// with 32-bit offsets, and these limits keep every encoded URL far below that size.
pub open spec fn fits_query(base: Seq<char>, pairs: Seq<(Seq<char>, Seq<char>)>) -> bool {
    &&& byte_len(base) <= MAX_URL_BYTES
    &&& pairs.len() <= MAX_QUERY_BYTES
    &&& pairs_byte_len(pairs) <= MAX_QUERY_BYTES
}

/// The serialisation of the absolute URL that `input` parses to, as `url::Url::parse`
/// gives it; none where `input` does not parse.
pub uninterp spec fn absolute_url(input: Seq<char>) -> Option<Seq<char>>;

/// The serialisation of the URL that `input` parses to with `pairs` added to its query
/// string, as `url::Url::parse_with_params` gives it; none where `input` does not parse.
pub uninterp spec fn url_with_query(input: Seq<char>, pairs: Seq<(Seq<char>, Seq<char>)>) -> Option<
    Seq<char>,
>;

/// The JSON text of the object that maps each name in `pairs` to its value as a string,
/// as `serde_json::to_string` gives it for a `serde_json::Map`; none where it fails.
pub uninterp spec fn json_object(pairs: Seq<(Seq<char>, Seq<char>)>) -> Option<Seq<char>>;

/// The error of the URL parser.
#[verifier::external_type_specification]
#[verifier::external_body]
pub struct ExUrlParseError(url::ParseError);

/// The error of the JSON serialiser.
#[verifier::external_type_specification]
#[verifier::external_body]
pub struct ExJsonError(serde_json::Error);

/// `url::Url::parse`, and the conversion of the URL to its serialisation. Trusted: the
/// outcome depends on the characters of `input` alone.
#[verifier::external_body]
pub(crate) fn parse_url(input: &str) -> (r: Result<String, url::ParseError>)
    ensures
        match r {
            Ok(url) => absolute_url(input@) == Some(url@),
            Err(_) => absolute_url(input@) is None,
        },
{
    match url::Url::parse(input) {
        Ok(url) => Ok(String::from(url)),
        Err(e) => Err(e),
    }
}

/// `url::Url::parse_with_params`, and the conversion of the URL to its serialisation.
/// Trusted: the outcome depends on the characters of `input` and of `pairs` alone. The
/// parser panics where a URL outgrows 32-bit offsets, which the size limits rule out.
#[verifier::external_body]
pub(crate) fn parse_url_with_params(input: &str, pairs: &Vec<(String, String)>) -> (r: Result<
    String,
    url::ParseError,
>)
    requires
        fits_query(input@, pairs.deep_view()),
    ensures
        match r {
            Ok(url) => url_with_query(input@, pairs.deep_view()) == Some(url@),
            Err(_) => url_with_query(input@, pairs.deep_view()) is None,
        },
{
    match url::Url::parse_with_params(input, pairs) {
        Ok(url) => Ok(String::from(url)),
        Err(e) => Err(e),
    }
}

/// `serde_json::to_string` on the `serde_json::Map` that holds each name of `pairs` with
/// its value as a JSON string. Trusted: the outcome depends on the characters of `pairs`
/// alone.
#[verifier::external_body]
pub(crate) fn json_text(pairs: &Vec<(String, String)>) -> (r: Result<String, serde_json::Error>)
    ensures
        match r {
            Ok(text) => json_object(pairs.deep_view()) == Some(text@),
            Err(_) => json_object(pairs.deep_view()) is None,
        },
{
    let object: serde_json::Map<String, serde_json::Value> = pairs.iter().map(
        |p| (p.0.clone(), serde_json::Value::String(p.1.clone())),
    ).collect();
    serde_json::to_string(&object)
}

/// The total size only grows as pairs are added.
proof fn lemma_pairs_byte_len_monotone(pairs: Seq<(Seq<char>, Seq<char>)>, n: int)
    requires
        0 <= n <= pairs.len(),
    ensures
        pairs_byte_len(pairs.take(n)) <= pairs_byte_len(pairs),
    decreases pairs.len() - n,
{
    if n == pairs.len() {
        assert(pairs.take(n) =~= pairs);
    } else {
        lemma_pairs_byte_len_monotone(pairs.drop_last(), n);
        assert(pairs.drop_last().take(n) =~= pairs.take(n));
    }
}

/// Tests the size limits of a URL with a query.
pub fn query_fits(base: &str, pairs: &Vec<(String, String)>) -> (fits: bool)
    ensures
        fits == fits_query(base@, pairs.deep_view()),
{
    if byte_length(base) > MAX_URL_BYTES || pairs.len() > MAX_QUERY_BYTES {
        return false;
    }
    let ghost all = pairs.deep_view();
    let mut total: usize = 0;
    let mut i: usize = 0;
    while i < pairs.len()
        invariant
            i <= pairs.len(),
            all == pairs.deep_view(),
            total == pairs_byte_len(all.take(i as int)),
            total <= MAX_QUERY_BYTES,
        decreases pairs.len() - i,
    {
        let k = byte_length(pairs[i].0.as_str());
        let v = byte_length(pairs[i].1.as_str());
        proof {
            let next = all.take(i + 1);
            assert(next.drop_last() =~= all.take(i as int));
            assert(next.last() == all[i as int]);
            lemma_pairs_byte_len_monotone(all, i + 1);
        }
        if k > MAX_QUERY_BYTES - total {
            return false;
        }
        if v > MAX_QUERY_BYTES - total - k {
            return false;
        }
        total = total + k + v;
        i += 1;
    }
    assert(all.take(i as int) =~= all);
    true
}

} // verus!
