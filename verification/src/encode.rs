//! The canonical identity of a query: the form-urlencoded pair of the
//! trimmed query text and the trimmed facet spec.  Two inputs that encode
//! identically are the same identity everywhere in the engine.

use vstd::prelude::*;
use vstd::string::*;

use crate::text::{spec_trim, trim};

verus! {

/// What `url`'s form serializer produces for the pair
/// `query=<query>&facets=<facets>`.
pub uninterp spec fn form_encoded_pair(query: Seq<char>, facets: Seq<char>) -> Seq<char>;

/// Relies on url::form_urlencoded::Serializer::append_pair: the serializer
/// percent-encodes the two names and values into
/// `query=<enc>&facets=<enc>`, and the result depends on the two argument
/// strings alone.
#[verifier::external_body]
fn encode_pair(query: &str, facets: &str) -> (r: String)
    ensures
        r@ == form_encoded_pair(query@, facets@),
{
    url::form_urlencoded::Serializer::new(String::new())
        .append_pair("query", query)
        .append_pair("facets", facets)
        .finish()
}

/// Identity under which a query's chart and selection are stored.
pub open spec fn spec_identity(query: Seq<char>, facets: Seq<char>) -> Seq<char> {
    form_encoded_pair(spec_trim(query), spec_trim(facets))
}

/// Encodes the canonical identity of a query and facet spec.
pub fn query_identity(query: &str, facets: &str) -> (r: String)
    ensures
        r@ == spec_identity(query@, facets@),
{
    let q = trim(query);
    let f = trim(facets);
    encode_pair(q.as_str(), f.as_str())
}


/// What url's form parser yields for a form-encoded string: the decoded
/// (name, value) pairs in order.
pub uninterp spec fn form_decoded(s: Seq<char>) -> Seq<(Seq<char>, Seq<char>)>;

/// Relies on url::form_urlencoded::parse: it splits the input on `&` and
/// `=` and percent-decodes each name and value; the pairs depend on the
/// input string alone.
#[verifier::external_body]
fn decode_pairs(s: &str) -> (r: Vec<(String, String)>)
    ensures
        r@.len() == form_decoded(s@).len(),
        forall|i: int| 0 <= i < r@.len() ==> (#[trigger] r@[i]).0@ == form_decoded(s@)[i].0,
        forall|i: int| 0 <= i < r@.len() ==> (#[trigger] r@[i]).1@ == form_decoded(s@)[i].1,
{
    url::form_urlencoded::parse(s.as_bytes()).into_owned().collect()
}

/// Value of the first pair with the given name, or empty text.
pub open spec fn field_value(pairs: Seq<(Seq<char>, Seq<char>)>, name: Seq<char>) -> Seq<char>
    decreases pairs.len(),
{
    if pairs.len() == 0 {
        Seq::empty()
    } else if pairs[0].0 == name {
        pairs[0].1
    } else {
        field_value(pairs.subrange(1, pairs.len() as int), name)
    }
}

proof fn lemma_field_value_skip(pairs: Seq<(Seq<char>, Seq<char>)>, name: Seq<char>, i: int)
    requires
        0 <= i <= pairs.len(),
        forall|j: int| 0 <= j < i ==> pairs[j].0 != name,
    ensures
        field_value(pairs, name) == field_value(pairs.subrange(i, pairs.len() as int), name),
    decreases i,
{
    if i > 0 {
        assert(pairs[0].0 != name);
        let t = pairs.subrange(1, pairs.len() as int);
        lemma_field_value_skip(t, name, i - 1);
        assert(t.subrange(i - 1, t.len() as int) =~= pairs.subrange(i, pairs.len() as int));
    } else {
        assert(pairs.subrange(0, pairs.len() as int) =~= pairs);
    }
}

/// The query and facet text an identity encodes: the values of its first
/// `query` and `facets` pairs (empty when a pair is absent).
pub fn identity_fields(identity: &str) -> (r: (String, String))
    ensures
        r.0@ == field_value(form_decoded(identity@), "query"@),
        r.1@ == field_value(form_decoded(identity@), "facets"@),
{
    let pairs = decode_pairs(identity);
    let query = pick_field(&pairs, "query", Ghost(identity@));
    let facets = pick_field(&pairs, "facets", Ghost(identity@));
    (query, facets)
}

fn pick_field(pairs: &Vec<(String, String)>, name: &str, src: Ghost<Seq<char>>) -> (r: String)
    requires
        pairs@.len() == form_decoded(src@).len(),
        forall|i: int| 0 <= i < pairs@.len() ==> (#[trigger] pairs@[i]).0@ == form_decoded(
            src@,
        )[i].0,
        forall|i: int| 0 <= i < pairs@.len() ==> (#[trigger] pairs@[i]).1@ == form_decoded(
            src@,
        )[i].1,
    ensures
        r@ == field_value(form_decoded(src@), name@),
{
    let ghost dp = form_decoded(src@);
    let n = pairs.len();
    let mut i: usize = 0;
    while i < n
        invariant
            0 <= i <= n,
            n == pairs@.len(),
            n == dp.len(),
            dp == form_decoded(src@),
            forall|q: int| 0 <= q < n ==> (#[trigger] pairs@[q]).0@ == dp[q].0,
            forall|q: int| 0 <= q < n ==> (#[trigger] pairs@[q]).1@ == dp[q].1,
            forall|q: int| 0 <= q < i ==> (#[trigger] dp[q]).0 != name@,
        decreases n - i,
    {
        if crate::text::str_eq(pairs[i].0.as_str(), name) {
            proof {
                lemma_field_value_skip(dp, name@, i as int);
                assert(dp.subrange(i as int, n as int)[0] == dp[i as int]);
            }
            return pairs[i].1.clone();
        }
        i = i + 1;
    }
    proof {
        lemma_field_value_skip(dp, name@, n as int);
        assert(dp.subrange(n as int, n as int) =~= Seq::<(Seq<char>, Seq<char>)>::empty());
    }
    String::new()
}


} // verus!
