//! The request signer: canonical ordering of request parameters, and the
//! computation of an OAuth 1.0a HMAC-SHA1 `Authorization` header value.
//!
//! Parameter collection and ordering is verified code: parameters are sorted
//! by key and then by value, the order the OAuth signature base string
//! requires.  The header itself — percent-encoding, signature base string,
//! HMAC-SHA1, base64 — is computed by the `oauth1-request` crate behind one
//! trusted wrapper; with a caller-fixed nonce and timestamp its result is a
//! function of the arguments alone, which `signed_header_of` names.

use vstd::prelude::*;
use crate::encoding::oauth_encode;
use crate::error::{PlurkError, CODE_SIGNING};
use crate::numeric::dec_u64;
use crate::strutil::{
    contains_seq, find_pos, is_prefix, lex_le, lemma_lex_le_antisym, lemma_lex_le_total,
};

verus! {

/// The views of a sequence of string pairs.
pub open spec fn pairs_view(v: Seq<(String, String)>) -> Seq<(Seq<char>, Seq<char>)> {
    v.map_values(|p: (String, String)| (p.0@, p.1@))
}

/// Order on parameter pairs: by key, and by value between equal keys.
pub open spec fn pair_le(a: (Seq<char>, Seq<char>), b: (Seq<char>, Seq<char>)) -> bool {
    if a.0 == b.0 {
        lex_le(a.1, b.1)
    } else {
        lex_le(a.0, b.0)
    }
}

/// `pair_le` is total.
pub proof fn lemma_pair_le_total(a: (Seq<char>, Seq<char>), b: (Seq<char>, Seq<char>))
    ensures
        pair_le(a, b) || pair_le(b, a),
{
    lemma_lex_le_total(a.0, b.0);
    lemma_lex_le_total(a.1, b.1);
    if a.0 != b.0 && lex_le(a.0, b.0) && lex_le(b.0, a.0) {
        lemma_lex_le_antisym(a.0, b.0);
    }
}

/// Pairs in non-decreasing order throughout.
pub open spec fn sorted_pairs(s: Seq<(Seq<char>, Seq<char>)>) -> bool {
    forall|i: int| 0 <= i < s.len() - 1 ==> pair_le(#[trigger] s[i], s[i + 1])
}

/// `p` inserted in front of the first element of `s` not below it.
pub open spec fn insert_pair(
    p: (Seq<char>, Seq<char>),
    s: Seq<(Seq<char>, Seq<char>)>,
) -> Seq<(Seq<char>, Seq<char>)>
    decreases s.len(),
{
    if s.len() == 0 {
        seq![p]
    } else if pair_le(p, s[0]) {
        seq![p] + s
    } else {
        seq![s[0]] + insert_pair(p, s.drop_first())
    }
}

/// The canonical (sorted) order of a parameter sequence.
pub open spec fn canon_params(s: Seq<(Seq<char>, Seq<char>)>) -> Seq<(Seq<char>, Seq<char>)>
    decreases s.len(),
{
    if s.len() == 0 {
        seq![]
    } else {
        insert_pair(s[0], canon_params(s.drop_first()))
    }
}

/// Inserting into a sorted sequence keeps it sorted.
pub proof fn lemma_insert_pair_sorted(p: (Seq<char>, Seq<char>), s: Seq<(Seq<char>, Seq<char>)>)
    requires
        sorted_pairs(s),
    ensures
        sorted_pairs(insert_pair(p, s)),
        insert_pair(p, s).len() == s.len() + 1,
    decreases s.len(),
{
    if s.len() == 0 {
    } else if pair_le(p, s[0]) {
        let t = seq![p] + s;
        assert forall|i: int| 0 <= i < t.len() - 1 implies pair_le(#[trigger] t[i], t[i + 1]) by {
            if i > 0 {
                assert(t[i] == s[i - 1]);
                assert(t[i + 1] == s[i]);
            }
        }
    } else {
        assert(sorted_pairs(s.drop_first())) by {
            assert(forall|i: int|
                0 <= i < s.drop_first().len() - 1 ==> #[trigger] s.drop_first()[i] == s[i + 1]
                    && s.drop_first()[i + 1] == s[i + 2]);
        }
        lemma_insert_pair_sorted(p, s.drop_first());
        let u = insert_pair(p, s.drop_first());
        let t = seq![s[0]] + u;
        lemma_pair_le_total(p, s[0]);
        assert forall|i: int| 0 <= i < t.len() - 1 implies pair_le(#[trigger] t[i], t[i + 1]) by {
            if i == 0 {
                if s.len() == 1 {
                    assert(u == seq![p]);
                    assert(t[1] == p);
                } else {
                    if pair_le(p, s.drop_first()[0]) {
                        assert(u[0] == p);
                    } else {
                        assert(u[0] == s.drop_first()[0]);
                        assert(pair_le(s[0], s[1]));
                    }
                }
            } else {
                assert(t[i] == u[i - 1]);
                assert(t[i + 1] == u[i]);
            }
        }
    }
}

/// The canonical order is sorted.
pub proof fn lemma_canon_params_sorted(s: Seq<(Seq<char>, Seq<char>)>)
    ensures
        sorted_pairs(canon_params(s)),
        canon_params(s).len() == s.len(),
    decreases s.len(),
{
    if s.len() > 0 {
        lemma_canon_params_sorted(s.drop_first());
        lemma_insert_pair_sorted(s[0], canon_params(s.drop_first()));
    }
}

/// Where `insert_pair` puts its element: before index `j`, everything is
/// strictly below `p`, and the element at `j` (if any) is not.
pub proof fn lemma_insert_pair_at(
    p: (Seq<char>, Seq<char>),
    s: Seq<(Seq<char>, Seq<char>)>,
    j: int,
)
    requires
        0 <= j <= s.len(),
        forall|m: int| 0 <= m < j ==> !pair_le(p, #[trigger] s[m]),
        j < s.len() ==> pair_le(p, s[j]),
    ensures
        insert_pair(p, s) == s.take(j) + seq![p] + s.skip(j),
    decreases j,
{
    if j == 0 {
        if s.len() == 0 {
            assert(insert_pair(p, s) =~= s.take(0) + seq![p] + s.skip(0));
        } else {
            assert(insert_pair(p, s) =~= s.take(0) + seq![p] + s.skip(0));
        }
    } else {
        assert(!pair_le(p, s[0]));
        let t = s.drop_first();
        assert(forall|m: int| 0 <= m < j - 1 ==> !pair_le(p, #[trigger] t[m]));
        assert(j - 1 < t.len() ==> pair_le(p, t[j - 1]));
        lemma_insert_pair_at(p, t, j - 1);
        assert(insert_pair(p, s) =~= s.take(j) + seq![p] + s.skip(j));
    }
}

/// Compares two parameter pairs in the canonical order.
pub fn pair_le_exec(a: &(String, String), b: &(String, String)) -> (r: bool)
    ensures
        r == pair_le((a.0@, a.1@), (b.0@, b.1@)),
{
    if crate::strutil::str_eq(a.0.as_str(), b.0.as_str()) {
        crate::strutil::str_le(a.1.as_str(), b.1.as_str())
    } else {
        crate::strutil::str_le(a.0.as_str(), b.0.as_str())
    }
}

/// Sorts request parameters into the canonical order.
#[verifier::loop_isolation(false)]
pub fn sort_params(data: &Vec<(String, String)>) -> (r: Vec<(String, String)>)
    ensures
        pairs_view(r@) == canon_params(pairs_view(data@)),
{
    let n = data.len();
    let mut out: Vec<(String, String)> = Vec::new();
    let mut i: usize = n;
    proof {
        assert(pairs_view(data@).skip(n as int) =~= Seq::<(Seq<char>, Seq<char>)>::empty());
        assert(pairs_view(out@) =~= canon_params(pairs_view(data@).skip(n as int)));
    }
    while i > 0
        invariant
            0 <= i <= n == data@.len(),
            pairs_view(out@) == canon_params(pairs_view(data@).skip(i as int)),
        decreases i,
    {
        i = i - 1;
        let item = (data[i].0.clone(), data[i].1.clone());
        let ghost pv = (item.0@, item.1@);
        let ghost before = pairs_view(out@);
        let mut j: usize = 0;
        while j < out.len() && !pair_le_exec(&item, &out[j])
            invariant
                0 <= j <= out@.len(),
                forall|m: int| 0 <= m < j ==> !pair_le(pv, #[trigger] pairs_view(out@)[m]),
                out@.len() == before.len(),
                pairs_view(out@) == before,
            decreases out@.len() - j,
        {
            j = j + 1;
        }
        out.insert(j, item);
        proof {
            lemma_insert_pair_at(pv, before, j as int);
            assert(pairs_view(out@) =~= before.take(j as int) + seq![pv] + before.skip(j as int));
            let t = pairs_view(data@).skip(i as int);
            assert(t[0] == pv);
            assert(t.drop_first() =~= pairs_view(data@).skip(i as int + 1));
            assert(pairs_view(out@) =~= canon_params(t));
        }
    }
    proof {
        assert(pairs_view(data@).skip(0) =~= pairs_view(data@));
    }
    out
}

/// View of an optional string argument.
pub open spec fn opt_view(v: Option<&str>) -> Option<Seq<char>> {
    match v {
        Some(s) => Some(s@),
        None => None,
    }
}

/// The structural facts of the signer's documented output format: the
/// header value opens with `OAuth ` and carries each OAuth protocol field
/// as `name="value"`, the value percent-encoded with the RFC 3986
/// unreserved set, the timestamp in decimal, and a signature field.
pub open spec fn header_carries_oauth_fields(
    r: Seq<char>,
    consumer_key: Seq<char>,
    token: Seq<char>,
    verifier: Option<Seq<char>>,
    nonce: Seq<char>,
    timestamp: u64,
) -> bool {
    &&& is_prefix("OAuth "@, r)
    &&& contains_seq(r, "oauth_consumer_key=\""@ + oauth_encode(consumer_key) + "\""@)
    &&& contains_seq(r, "oauth_signature_method=\"HMAC-SHA1\""@)
    &&& contains_seq(r, "oauth_timestamp=\""@ + dec_u64(timestamp as nat) + "\""@)
    &&& contains_seq(r, "oauth_nonce=\""@ + oauth_encode(nonce) + "\""@)
    &&& contains_seq(r, "oauth_token=\""@ + oauth_encode(token) + "\""@)
    &&& contains_seq(r, "oauth_signature=\""@)
    &&& (verifier matches Some(v) ==> contains_seq(
        r,
        "oauth_verifier=\""@ + oauth_encode(v) + "\""@,
    ))
}

/// The OAuth 1.0a `Authorization` header value that HMAC-SHA1 signing
/// produces for the given method, URL, credentials, verifier, canonically
/// ordered parameters, nonce and timestamp.  The result depends on these
/// arguments alone.
pub uninterp spec fn signed_header_of(
    method: Seq<char>,
    uri: Seq<char>,
    consumer_key: Seq<char>,
    consumer_secret: Seq<char>,
    token: Seq<char>,
    token_secret: Seq<char>,
    verifier: Option<Seq<char>>,
    params: Seq<(Seq<char>, Seq<char>)>,
    nonce: Seq<char>,
    timestamp: u64,
) -> Seq<char>;

/// Computes the OAuth 1.0a HMAC-SHA1 `Authorization` header value.
///
/// Relies on `oauth1_request::Builder::authorize` with the HMAC-SHA1
/// signature method and `oauth1_request::ParameterList::from_sorted`: with
/// the nonce and a non-zero timestamp fixed by the caller, the produced
/// header is a function of the arguments alone (`signed_header_of`); its
/// documented shape is `OAuth ` followed by `name="value"` fields with
/// RFC 3986 percent-encoded values (`header_carries_oauth_fields`).  The
/// call neither panics nor fails when the parameters are sorted, which
/// `from_sorted` requires, and the URI carries no query part, which the
/// serializer asserts against.
#[verifier::external_body]
fn hmac_sha1_header(
    method: &str,
    uri: &str,
    consumer_key: &str,
    consumer_secret: &str,
    token: &str,
    token_secret: &str,
    verifier: Option<&str>,
    params: &Vec<(String, String)>,
    nonce: &str,
    timestamp: u64,
) -> (r: String)
    requires
        timestamp >= 1,
        sorted_pairs(pairs_view(params@)),
        find_pos(uri@, '?') is None,
    ensures
        r@ == signed_header_of(
            method@,
            uri@,
            consumer_key@,
            consumer_secret@,
            token@,
            token_secret@,
            opt_view(verifier),
            pairs_view(params@),
            nonce@,
            timestamp,
        ),
        header_carries_oauth_fields(
            r@,
            consumer_key@,
            token@,
            opt_view(verifier),
            nonce@,
            timestamp,
        ),
{
    let token = oauth1_request::Token::from_parts(consumer_key, consumer_secret, token, token_secret);
    let mut builder = oauth1_request::Builder::with_token(token, oauth1_request::HMAC_SHA1);
    builder.nonce(Some(nonce));
    builder.timestamp(core::num::NonZeroU64::new(timestamp));
    builder.verifier(verifier);
    let list = oauth1_request::ParameterList::from_sorted(params.as_slice()).unwrap();
    builder.authorize(method, uri, &list)
}

/// Signs a `POST` request: sorts the parameters into canonical order and
/// computes the `Authorization` header value for them.  A URI carrying a
/// query part cannot be signed and is rejected.
pub fn sign_post(
    uri: &str,
    consumer_key: &str,
    consumer_secret: &str,
    token: &str,
    token_secret: &str,
    verifier: Option<&str>,
    data: &Vec<(String, String)>,
    nonce: &str,
    timestamp: u64,
) -> (r: Result<String, PlurkError>)
    requires
        timestamp >= 1,
    ensures
        r is Ok <==> find_pos(uri@, '?') is None,
        (r matches Ok(h) ==> {
            &&& h@ == signed_header_of(
                "POST"@,
                uri@,
                consumer_key@,
                consumer_secret@,
                token@,
                token_secret@,
                opt_view(verifier),
                canon_params(pairs_view(data@)),
                nonce@,
                timestamp,
            )
            &&& header_carries_oauth_fields(
                h@,
                consumer_key@,
                token@,
                opt_view(verifier),
                nonce@,
                timestamp,
            )
        }),
        (r matches Err(e) ==> e.code == CODE_SIGNING),
{
    if crate::strutil::find_char(uri, '?').is_some() {
        return Err(
            PlurkError::new(CODE_SIGNING, "a URI with a query part cannot be signed".to_owned()),
        );
    }
    let sorted = sort_params(data);
    proof {
        lemma_canon_params_sorted(pairs_view(data@));
    }
    Ok(
        hmac_sha1_header(
            "POST",
            uri,
            consumer_key,
            consumer_secret,
            token,
            token_secret,
            verifier,
            &sorted,
            nonce,
            timestamp,
        ),
    )
}

} // verus!
