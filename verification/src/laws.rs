//! The laws of the library: determinism of signing, canonicity of the
//! parameter order (including the grouping of `oauth_`-prefixed parameters),
//! and offset advancement across successive polls.

use vstd::prelude::*;
use crate::comet::{comet_data, comet_new_offset, spec_poll_url, PlurkComet};
use crate::sign::{
    canon_params, insert_pair, lemma_canon_params_sorted, lemma_pair_le_total, pair_le,
    signed_header_of, sorted_pairs,
};
use crate::strutil::{
    is_prefix, lemma_char_eq, lemma_lex_le_antisym, lemma_lex_le_refl, lemma_lex_le_trans, lex_le,
};

verus! {

broadcast use vstd::seq_lib::group_to_multiset_ensures, vstd::multiset::group_multiset_axioms;

/// Signature determinism: for one method, URL, credential set, verifier,
/// parameter sequence, nonce and timestamp, two signed headers are
/// byte-identical.
pub proof fn lemma_signature_deterministic(
    h1: Seq<char>,
    h2: Seq<char>,
    method: Seq<char>,
    uri: Seq<char>,
    consumer_key: Seq<char>,
    consumer_secret: Seq<char>,
    token: Seq<char>,
    token_secret: Seq<char>,
    verifier: Option<Seq<char>>,
    params: Seq<(Seq<char>, Seq<char>)>,
    nonce: Seq<char>,
    timestamp: u64,
)
    requires
        h1 == signed_header_of(
            method,
            uri,
            consumer_key,
            consumer_secret,
            token,
            token_secret,
            verifier,
            params,
            nonce,
            timestamp,
        ),
        h2 == signed_header_of(
            method,
            uri,
            consumer_key,
            consumer_secret,
            token,
            token_secret,
            verifier,
            params,
            nonce,
            timestamp,
        ),
    ensures
        h1 == h2,
{
}

/// `pair_le` is transitive.
pub proof fn lemma_pair_le_trans(
    a: (Seq<char>, Seq<char>),
    b: (Seq<char>, Seq<char>),
    c: (Seq<char>, Seq<char>),
)
    requires
        pair_le(a, b),
        pair_le(b, c),
    ensures
        pair_le(a, c),
{
    if a.0 == b.0 && b.0 == c.0 {
        lemma_lex_le_trans(a.1, b.1, c.1);
    } else if a.0 != b.0 && b.0 != c.0 {
        lemma_lex_le_trans(a.0, b.0, c.0);
        if a.0 == c.0 {
            lemma_lex_le_antisym(a.0, b.0);
        }
    }
}

/// `pair_le` is antisymmetric.
pub proof fn lemma_pair_le_antisym(a: (Seq<char>, Seq<char>), b: (Seq<char>, Seq<char>))
    requires
        pair_le(a, b),
        pair_le(b, a),
    ensures
        a == b,
{
    if a.0 == b.0 {
        lemma_lex_le_antisym(a.1, b.1);
    } else {
        lemma_lex_le_antisym(a.0, b.0);
    }
}

/// In a sorted sequence every element is below every later one.
pub proof fn lemma_sorted_pairs_pairwise(s: Seq<(Seq<char>, Seq<char>)>, i: int, j: int)
    requires
        sorted_pairs(s),
        0 <= i <= j < s.len(),
    ensures
        pair_le(s[i], s[j]),
    decreases j - i,
{
    if i == j {
        lemma_lex_le_refl(s[i].1);
    } else {
        lemma_sorted_pairs_pairwise(s, i, j - 1);
        assert(pair_le(s[j - 1], s[j]));
        lemma_pair_le_trans(s[i], s[j - 1], s[j]);
    }
}

/// Inserting adds exactly the inserted element to the contents.
pub proof fn lemma_insert_pair_multiset(p: (Seq<char>, Seq<char>), s: Seq<(Seq<char>, Seq<char>)>)
    ensures
        insert_pair(p, s).to_multiset() =~= s.to_multiset().insert(p),
    decreases s.len(),
{
    if s.len() == 0 {
        assert(insert_pair(p, s) =~= Seq::<(Seq<char>, Seq<char>)>::empty().push(p));
    } else if pair_le(p, s[0]) {
        let t = seq![p] + s;
        assert(t.remove(0) =~= s);
        assert(t[0] == p);
        assert(t.remove(0).to_multiset() =~= t.to_multiset().remove(p));
        assert(t.to_multiset().contains(p)) by {
            assert(t.contains(p));
        }
        assert(t.to_multiset() =~= s.to_multiset().insert(p));
    } else {
        let u = insert_pair(p, s.drop_first());
        lemma_insert_pair_multiset(p, s.drop_first());
        let t = seq![s[0]] + u;
        assert(insert_pair(p, s) == t);
        assert(t.remove(0) =~= u);
        assert(t[0] == s[0]);
        assert(t.remove(0).to_multiset() =~= t.to_multiset().remove(s[0]));
        assert(t.to_multiset().contains(s[0])) by {
            assert(t.contains(s[0]));
        }
        assert(s.remove(0) =~= s.drop_first());
        assert(s.remove(0).to_multiset() =~= s.to_multiset().remove(s[0]));
        assert(s.to_multiset().contains(s[0])) by {
            assert(s.contains(s[0]));
        }
        assert(t.to_multiset() =~= s.to_multiset().insert(p)) by {
            assert(t.to_multiset().remove(s[0]) =~= s.to_multiset().remove(s[0]).insert(p));
            assert forall|a: (Seq<char>, Seq<char>)|
                t.to_multiset().count(a) == #[trigger] s.to_multiset().insert(p).count(a) by {
                if a == s[0] {
                    assert(t.to_multiset().remove(s[0]).count(a) == t.to_multiset().count(a) - 1);
                } else {
                    assert(t.to_multiset().remove(s[0]).count(a) == t.to_multiset().count(a));
                }
            }
        }
    }
}

/// The canonical order is a reordering: it keeps the contents.
pub proof fn lemma_canon_params_multiset(s: Seq<(Seq<char>, Seq<char>)>)
    ensures
        canon_params(s).to_multiset() =~= s.to_multiset(),
    decreases s.len(),
{
    if s.len() > 0 {
        lemma_canon_params_multiset(s.drop_first());
        lemma_insert_pair_multiset(s[0], canon_params(s.drop_first()));
        assert(s.remove(0) =~= s.drop_first());
        assert(s.remove(0).to_multiset() =~= s.to_multiset().remove(s[0]));
        assert(s.to_multiset().contains(s[0])) by {
            assert(s.contains(s[0]));
        }
        assert forall|a: (Seq<char>, Seq<char>)|
            canon_params(s).to_multiset().count(a) == #[trigger] s.to_multiset().count(a) by {
            if a == s[0] {
                assert(s.drop_first().to_multiset().count(a) == s.to_multiset().count(a) - 1);
            } else {
                assert(s.drop_first().to_multiset().count(a) == s.to_multiset().count(a));
            }
        }
    }
}

/// Two sorted sequences with the same contents are the same sequence.
pub proof fn lemma_sorted_pairs_unique(a: Seq<(Seq<char>, Seq<char>)>, b: Seq<
    (Seq<char>, Seq<char>),
>)
    requires
        sorted_pairs(a),
        sorted_pairs(b),
        a.to_multiset() == b.to_multiset(),
    ensures
        a == b,
    decreases a.len(),
{
    if a.len() == 0 {
        assert(b.to_multiset().len() == 0);
        assert(a =~= b);
    } else {
        a.to_multiset_ensures();
        b.to_multiset_ensures();
        assert(b.to_multiset().len() == a.to_multiset().len());
        assert(b.len() > 0);
        assert(b.to_multiset().contains(a[0])) by {
            assert(a.to_multiset().contains(a[0])) by {
                assert(a.contains(a[0]));
            }
        }
        assert(b.contains(a[0]));
        let i = choose|i: int| 0 <= i < b.len() && b[i] == a[0];
        lemma_sorted_pairs_pairwise(b, 0, i);
        assert(pair_le(b[0], a[0]));
        assert(a.to_multiset().contains(b[0])) by {
            assert(b.to_multiset().contains(b[0])) by {
                assert(b.contains(b[0]));
            }
        }
        assert(a.contains(b[0]));
        let j = choose|j: int| 0 <= j < a.len() && a[j] == b[0];
        lemma_sorted_pairs_pairwise(a, 0, j);
        assert(pair_le(a[0], b[0]));
        lemma_pair_le_antisym(a[0], b[0]);
        let at = a.remove(0);
        let bt = b.remove(0);
        assert(at.to_multiset() =~= a.to_multiset().remove(a[0]));
        assert(bt.to_multiset() =~= b.to_multiset().remove(b[0]));
        assert(at.to_multiset() == bt.to_multiset());
        assert(sorted_pairs(at)) by {
            assert(forall|m: int| 0 <= m < at.len() ==> #[trigger] at[m] == a[m + 1]);
        }
        assert(sorted_pairs(bt)) by {
            assert(forall|m: int| 0 <= m < bt.len() ==> #[trigger] bt[m] == b[m + 1]);
        }
        lemma_sorted_pairs_unique(at, bt);
        assert(a =~= b) by {
            assert(forall|m: int| 1 <= m < a.len() ==> #[trigger] a[m] == at[m - 1]);
            assert(forall|m: int| 1 <= m < b.len() ==> #[trigger] b[m] == bt[m - 1]);
        }
    }
}

/// Parameter ordering is canonical: two parameter lists with the same
/// contents — the same pairs, however ordered — sort to the same canonical
/// sequence, so the signature base string does not depend on the order in
/// which a caller supplies its parameters.
pub proof fn lemma_canon_params_of_contents(a: Seq<(Seq<char>, Seq<char>)>, b: Seq<
    (Seq<char>, Seq<char>),
>)
    requires
        a.to_multiset() == b.to_multiset(),
    ensures
        canon_params(a) == canon_params(b),
{
    lemma_canon_params_sorted(a);
    lemma_canon_params_sorted(b);
    lemma_canon_params_multiset(a);
    lemma_canon_params_multiset(b);
    lemma_sorted_pairs_unique(canon_params(a), canon_params(b));
}

/// Whether a parameter key is an OAuth protocol key.
pub open spec fn is_oauth_key(key: Seq<char>) -> bool {
    is_prefix("oauth_"@, key)
}

/// Between two sequences sharing a prefix, order confines: anything ordered
/// between them carries the same prefix.
pub proof fn lemma_between_same_prefix(p: Seq<char>, a: Seq<char>, b: Seq<char>, c: Seq<char>)
    requires
        is_prefix(p, a),
        is_prefix(p, c),
        lex_le(a, b),
        lex_le(b, c),
    ensures
        is_prefix(p, b),
    decreases p.len(),
{
    if p.len() == 0 {
        assert(b.subrange(0, 0) =~= p);
    } else {
        assert(a[0] == p[0]) by {
            assert(a.subrange(0, p.len() as int)[0] == a[0]);
        }
        assert(c[0] == p[0]) by {
            assert(c.subrange(0, p.len() as int)[0] == c[0]);
        }
        assert(b.len() > 0);
        assert(a[0] as u32 <= b[0] as u32);
        assert(b[0] as u32 <= c[0] as u32);
        lemma_char_eq(b[0], p[0]);
        assert(is_prefix(p.drop_first(), a.drop_first())) by {
            assert(a.drop_first().subrange(0, p.len() - 1) =~= a.subrange(
                0,
                p.len() as int,
            ).drop_first());
        }
        assert(is_prefix(p.drop_first(), c.drop_first())) by {
            assert(c.drop_first().subrange(0, p.len() - 1) =~= c.subrange(
                0,
                p.len() as int,
            ).drop_first());
        }
        lemma_between_same_prefix(p.drop_first(), a.drop_first(), b.drop_first(), c.drop_first());
        assert(is_prefix(p, b)) by {
            assert(b.subrange(0, p.len() as int) =~= seq![b[0]] + b.drop_first().subrange(
                0,
                p.len() - 1,
            ));
            assert(p =~= seq![p[0]] + p.drop_first());
        }
    }
}

/// Parameter partitioning: in the canonical order, the `oauth_`-prefixed
/// parameters stand together — every parameter between two OAuth-keyed
/// parameters is OAuth-keyed itself, so an `oauth_` parameter supplied by a
/// caller is signed among the OAuth parameters and an ordinary parameter
/// outside them, regardless of input ordering.
pub proof fn lemma_oauth_params_grouped(s: Seq<(Seq<char>, Seq<char>)>, i: int, j: int, k: int)
    requires
        sorted_pairs(s),
        0 <= i <= j <= k < s.len(),
        is_oauth_key(s[i].0),
        is_oauth_key(s[k].0),
    ensures
        is_oauth_key(s[j].0),
{
    lemma_sorted_pairs_pairwise(s, i, j);
    lemma_sorted_pairs_pairwise(s, j, k);
    assert(lex_le(s[i].0, s[j].0)) by {
        if s[i].0 == s[j].0 {
            lemma_lex_le_refl(s[i].0);
        }
    }
    assert(lex_le(s[j].0, s[k].0)) by {
        if s[j].0 == s[k].0 {
            lemma_lex_le_refl(s[j].0);
        }
    }
    lemma_between_same_prefix("oauth_"@, s[i].0, s[j].0, s[k].0);
}

/// Whether one poll succeeded: the body carried a well-formed payload, the
/// new state took its `new_offset`, and the payload's `data` came out.
pub open spec fn poll_success(
    pre: PlurkComet,
    body: Seq<char>,
    post: PlurkComet,
    data: serde_json::Value,
) -> bool {
    &&& comet_new_offset(body) is Some
    &&& comet_data(body) == Some(data)
    &&& post.offset == comet_new_offset(body).unwrap()
    &&& post.base_url == pre.base_url
    &&& post.channel == pre.channel
}

/// Offset monotonicity across polls: after each successful poll the stored
/// offset equals that poll's `new_offset`, and the next poll's URL carries
/// exactly the offset stored by the previous poll.
pub proof fn lemma_offset_advancement(
    s0: PlurkComet,
    b1: Seq<char>,
    s1: PlurkComet,
    d1: serde_json::Value,
    b2: Seq<char>,
    s2: PlurkComet,
    d2: serde_json::Value,
    b3: Seq<char>,
    s3: PlurkComet,
    d3: serde_json::Value,
)
    requires
        poll_success(s0, b1, s1, d1),
        poll_success(s1, b2, s2, d2),
        poll_success(s2, b3, s3, d3),
    ensures
        s1.offset == comet_new_offset(b1).unwrap(),
        s2.offset == comet_new_offset(b2).unwrap(),
        s3.offset == comet_new_offset(b3).unwrap(),
        spec_poll_url(s1.base_url@, s1.channel@, s1.offset) == spec_poll_url(
            s0.base_url@,
            s0.channel@,
            comet_new_offset(b1).unwrap(),
        ),
        spec_poll_url(s2.base_url@, s2.channel@, s2.offset) == spec_poll_url(
            s0.base_url@,
            s0.channel@,
            comet_new_offset(b2).unwrap(),
        ),
{
}

} // verus!
