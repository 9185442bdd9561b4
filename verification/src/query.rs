//! Verified query-string parsing: splitting `k=v&k2=v2` strings into pairs
//! and looking fields up by decoded key, as the token-exchange responses and
//! the comet bootstrap URL require.

use vstd::prelude::*;
use crate::encoding::pct_decode;
use crate::strutil::{find_char, find_pos, lemma_find_pos};

verus! {

/// The views of a sequence of strings.
pub open spec fn strs_view(v: Seq<String>) -> Seq<Seq<char>> {
    v.map_values(|x: String| x@)
}

/// Segments of `s` between `&` separators, in order.
pub open spec fn split_amp(s: Seq<char>) -> Seq<Seq<char>>
    decreases s.len(),
{
    let i = find_pos(s, '&');
    if i is Some && 0 <= i.unwrap() < s.len() {
        seq![s.take(i.unwrap())] + split_amp(s.skip(i.unwrap() + 1))
    } else {
        seq![s]
    }
}

/// Splits a query string at every `&`.
#[verifier::loop_isolation(false)]
pub fn split_query(s: &str) -> (r: Vec<String>)
    ensures
        strs_view(r@) == split_amp(s@),
{
    let n = s.unicode_len();
    let mut segs: Vec<String> = Vec::new();
    let mut start: usize = 0;
    proof {
        assert(s@.skip(0) =~= s@);
        assert(strs_view(segs@) + split_amp(s@) =~= split_amp(s@));
    }
    loop
        invariant
            0 <= start <= n == s@.len(),
            split_amp(s@) == strs_view(segs@) + split_amp(s@.skip(start as int)),
        decreases n - start,
    {
        let rest = s.substring_char(start, n);
        proof {
            assert(rest@ =~= s@.skip(start as int));
            lemma_find_pos(rest@, '&');
        }
        match find_char(rest, '&') {
            None => {
                let piece = rest.to_owned();
                segs.push(piece);
                proof {
                    assert(split_amp(rest@) =~= seq![rest@]);
                    assert(strs_view(segs@) =~= strs_view(segs@.drop_last()) + seq![rest@]);
                    assert(strs_view(segs@) =~= split_amp(s@));
                }
                return segs;
            },
            Some(j) => {
                let piece = rest.substring_char(0, j);
                segs.push(piece.to_owned());
                proof {
                    assert(piece@ =~= rest@.take(j as int));
                    assert(split_amp(rest@) =~= seq![rest@.take(j as int)] + split_amp(
                        rest@.skip(j + 1),
                    ));
                    assert(rest@.skip(j + 1) =~= s@.skip(start + j + 1));
                    assert(strs_view(segs@) =~= strs_view(segs@.drop_last()) + seq![piece@]);
                }
                start = start + j + 1;
            },
        }
    }
}

/// Key and raw (still encoded) value of one `k=v` segment: the part before
/// the first `=` and the part after it; a segment without `=` is a key with
/// an empty value.
pub open spec fn pair_of(seg: Seq<char>) -> (Seq<char>, Seq<char>) {
    let i = find_pos(seg, '=');
    if i is Some && 0 <= i.unwrap() < seg.len() {
        (seg.take(i.unwrap()), seg.skip(i.unwrap() + 1))
    } else {
        (seg, Seq::<char>::empty())
    }
}

/// Splits one segment at its first `=`.
pub fn split_pair(seg: &str) -> (r: (String, String))
    ensures
        r.0@ == pair_of(seg@).0,
        r.1@ == pair_of(seg@).1,
{
    let n = seg.unicode_len();
    proof {
        lemma_find_pos(seg@, '=');
    }
    match find_char(seg, '=') {
        None => (seg.to_owned(), String::new()),
        Some(j) => {
            let k = seg.substring_char(0, j);
            let v = seg.substring_char(j + 1, n);
            proof {
                assert(k@ =~= seg@.take(j as int));
                assert(v@ =~= seg@.skip(j + 1));
            }
            (k.to_owned(), v.to_owned())
        },
    }
}

/// The decoded value of the first segment whose decoded key is `key`:
/// `None` when no segment's key decodes to `key`, `Some(None)` when the
/// matching segment's value does not decode, and `Some(Some(v))` otherwise.
pub open spec fn lookup_spec(segs: Seq<Seq<char>>, key: Seq<char>) -> Option<Option<Seq<char>>>
    decreases segs.len(),
{
    if segs.len() == 0 {
        None
    } else if pct_decode(pair_of(segs[0]).0) == Some(key) {
        Some(pct_decode(pair_of(segs[0]).1))
    } else {
        lookup_spec(segs.drop_first(), key)
    }
}

/// Looks a field up in a split query string by its decoded key.
#[verifier::loop_isolation(false)]
pub fn lookup_field(segs: &Vec<String>, key: &str) -> (r: Option<Option<String>>)
    ensures
        match r {
            Some(Some(v)) => lookup_spec(strs_view(segs@), key@) == Some(Some(v@)),
            Some(None) => lookup_spec(strs_view(segs@), key@) == Some(None::<Seq<char>>),
            None => lookup_spec(strs_view(segs@), key@) is None,
        },
{
    let mut i: usize = 0;
    let n = segs.len();
    proof {
        assert(strs_view(segs@).skip(0) =~= strs_view(segs@));
    }
    while i < n
        invariant
            0 <= i <= n == segs@.len(),
            lookup_spec(strs_view(segs@), key@) == lookup_spec(
                strs_view(segs@).skip(i as int),
                key@,
            ),
        decreases n - i,
    {
        let (k, v) = split_pair(segs[i].as_str());
        proof {
            assert(strs_view(segs@).skip(i as int)[0] == segs@[i as int]@);
            assert(strs_view(segs@).skip(i as int).drop_first() =~= strs_view(segs@).skip(
                i as int + 1,
            ));
        }
        match crate::encoding::pct_decode_str(k.as_str()) {
            Some(dk) => {
                if crate::strutil::str_eq(dk.as_str(), key) {
                    let dv = crate::encoding::pct_decode_str(v.as_str());
                    return match dv {
                        Some(x) => Some(Some(x)),
                        None => Some(None),
                    };
                }
            },
            None => {},
        }
        i = i + 1;
    }
    None
}

} // verus!
