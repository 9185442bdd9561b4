//! The comet long-poll channel: derivation of the polling endpoint from a
//! bootstrap URL, construction of poll URLs, JSONP-style unwrapping of poll
//! responses, and offset advancement.
//!
//! A successful poll replaces the stored offset with the payload's
//! `new_offset` before the payload is handed out, so the next poll always
//! uses the latest known offset; a failed poll leaves the channel unchanged.

use vstd::prelude::*;
use crate::encoding::form_encode;
use crate::error::{PlurkError, CODE_CONFIG, CODE_DECODE, CODE_PROTOCOL};
use crate::json::{
    clone_json, json_as_i64, json_field, json_field_of, json_i64_of, json_of, parse_json,
};
use crate::numeric::{dec_i64, int_str_val, parse_i64, valid_int_str};
use crate::query::{lookup_spec, split_amp, split_query, lookup_field};
use crate::strutil::{find_char, find_pos, is_prefix, is_suffix, lemma_find_pos};

verus! {

/// Index of the first `://` in `s`, if any.
pub open spec fn find_sep(s: Seq<char>) -> Option<int>
    decreases s.len(),
{
    if s.len() < 3 {
        None
    } else if s[0] == ':' && s[1] == '/' && s[2] == '/' {
        Some(0)
    } else {
        match find_sep(s.drop_first()) {
            Some(i) => Some(i + 1),
            None => None,
        }
    }
}

/// `find_sep` finds the first `://`: the returned index starts one, and no
/// earlier index does; `None` means the string holds none.
pub proof fn lemma_find_sep(s: Seq<char>)
    ensures
        match find_sep(s) {
            Some(i) => 0 <= i <= s.len() - 3 && s[i] == ':' && s[i + 1] == '/' && s[i + 2] == '/'
                && forall|j: int|
                0 <= j < i ==> !(#[trigger] s[j] == ':' && s[j + 1] == '/' && s[j + 2] == '/'),
            None => forall|j: int|
                0 <= j <= s.len() - 3 ==> !(#[trigger] s[j] == ':' && s[j + 1] == '/' && s[j + 2]
                    == '/'),
        },
    decreases s.len(),
{
    if s.len() >= 3 && !(s[0] == ':' && s[1] == '/' && s[2] == '/') {
        lemma_find_sep(s.drop_first());
        assert forall|j: int| 0 <= j < s.len() - 2 && (match find_sep(s) {
            Some(i) => j < i,
            None => true,
        }) implies !(#[trigger] s[j] == ':' && s[j + 1] == '/' && s[j + 2] == '/') by {
            if j > 0 {
                assert(s[j] == s.drop_first()[j - 1]);
                assert(s[j + 1] == s.drop_first()[j]);
                assert(s[j + 2] == s.drop_first()[j + 1]);
            }
        }
    }
}

/// Index of the last occurrence of `c` in `s`, if any.
pub open spec fn last_pos(s: Seq<char>, c: char) -> Option<int>
    decreases s.len(),
{
    if s.len() == 0 {
        None
    } else if s[s.len() - 1] == c {
        Some(s.len() - 1)
    } else {
        last_pos(s.drop_last(), c)
    }
}

/// `last_pos` finds the last occurrence: the returned index holds `c` and
/// nothing after it does; `None` means `c` does not occur at all.
pub proof fn lemma_last_pos(s: Seq<char>, c: char)
    ensures
        match last_pos(s, c) {
            Some(i) => 0 <= i < s.len() && s[i] == c && forall|j: int|
                i < j < s.len() ==> s[j] != c,
            None => forall|j: int| 0 <= j < s.len() ==> s[j] != c,
        },
    decreases s.len(),
{
    if s.len() > 0 && s[s.len() - 1] != c {
        let t = s.drop_last();
        lemma_last_pos(t, c);
        assert(forall|j: int| 0 <= j < t.len() ==> #[trigger] s[j] == t[j]);
    }
}

/// Last index of `c` in `s`, scanning characters right to left.
pub fn rfind_char(s: &str, c: char) -> (r: Option<usize>)
    ensures
        match r {
            Some(i) => last_pos(s@, c) == Some(i as int),
            None => last_pos(s@, c) is None,
        },
{
    let n = s.unicode_len();
    let mut i: usize = n;
    while i > 0
        invariant
            0 <= i <= n == s@.len(),
            forall|j: int| i <= j < n ==> s@[j] != c,
        decreases i,
    {
        i = i - 1;
        if s.get_char(i) == c {
            proof {
                lemma_last_pos_is(s@, c, i as int);
            }
            return Some(i);
        }
    }
    proof {
        lemma_last_pos(s@, c);
    }
    None
}

/// A position known to hold the last occurrence of `c` determines
/// `last_pos`.
pub proof fn lemma_last_pos_is(s: Seq<char>, c: char, i: int)
    requires
        0 <= i < s.len(),
        s[i] == c,
        forall|j: int| i < j < s.len() ==> s[j] != c,
    ensures
        last_pos(s, c) == Some(i),
{
    lemma_last_pos(s, c);
    match last_pos(s, c) {
        Some(k) => {
            if k < i {
                assert(s[i] != c);
            } else if i < k {
                assert(s[k] != c);
            }
        },
        None => {
            assert(s[i] != c);
        },
    }
}

/// The bootstrap URL up to (excluding) its fragment.
pub open spec fn strip_fragment(u: Seq<char>) -> Seq<char> {
    match find_pos(u, '#') {
        Some(i) => u.take(i),
        None => u,
    }
}

/// The query string of a URL: what stands between `?` and the fragment.
pub open spec fn query_of_url(u: Seq<char>) -> Option<Seq<char>> {
    let s = strip_fragment(u);
    match find_pos(s, '?') {
        Some(i) => Some(s.skip(i + 1)),
        None => None,
    }
}

/// The URL before its query string and fragment.
pub open spec fn prequery_of_url(u: Seq<char>) -> Seq<char> {
    let s = strip_fragment(u);
    match find_pos(s, '?') {
        Some(i) => s.take(i),
        None => s,
    }
}

/// The polling base derived from the pre-query part of a bootstrap URL: the
/// last path segment is replaced by `comet` (or `/comet` is appended to a
/// URL with no path).  `None` for a reference without `://`.
pub open spec fn comet_base_of(pre: Seq<char>) -> Option<Seq<char>> {
    match find_sep(pre) {
        None => None,
        Some(i) => match last_pos(pre.skip(i + 3), '/') {
            Some(k) => Some(pre.take(i + 3 + k + 1) + "comet"@),
            None => Some(pre + seq!['/'] + "comet"@),
        },
    }
}

/// The channel descriptor parsed from a bootstrap URL: the polling base,
/// the channel name, and the initial offset.  `None` when the URL has no
/// `://`, lacks a query string, lacks a decodable `channel` or `offset`
/// field, or carries an offset that is not a 64-bit decimal integer.
pub open spec fn parse_comet_descriptor(u: Seq<char>) -> Option<(Seq<char>, Seq<char>, i64)> {
    match query_of_url(u) {
        None => None,
        Some(q) => {
            let segs = split_amp(q);
            match (
                comet_base_of(prequery_of_url(u)),
                lookup_spec(segs, "channel"@),
                lookup_spec(segs, "offset"@),
            ) {
                (Some(b), Some(Some(ch)), Some(Some(os))) => if valid_int_str(os) && i64::MIN
                    <= int_str_val(os) <= i64::MAX {
                    Some((b, ch, int_str_val(os) as i64))
                } else {
                    None
                },
                _ => None,
            }
        },
    }
}

/// A long-poll channel: the polling base URL, the channel name, and the
/// latest known offset.
#[derive(Debug)]
pub struct PlurkComet {
    pub base_url: String,
    pub channel: String,
    pub offset: i64,
}

/// The literal head of a JSONP-wrapped comet payload.
pub open spec fn comet_prefix() -> Seq<char> {
    "CometChannel.scriptCallback("@
}

/// The literal tail of a JSONP-wrapped comet payload.
pub open spec fn comet_suffix() -> Seq<char> {
    ");"@
}

/// The JSON text inside the JSONP wrapper, when the body carries the exact
/// literal wrapper pattern.
pub open spec fn jsonp_inner(body: Seq<char>) -> Option<Seq<char>> {
    if body.len() >= comet_prefix().len() + comet_suffix().len() && is_prefix(comet_prefix(), body)
        && is_suffix(comet_suffix(), body) {
        Some(body.subrange(comet_prefix().len() as int, body.len() - comet_suffix().len()))
    } else {
        None
    }
}

/// The JSON value of a wrapped comet payload, when the wrapper is present
/// and its inside parses.
pub open spec fn comet_json(body: Seq<char>) -> Option<serde_json::Value> {
    match jsonp_inner(body) {
        Some(inner) => json_of(inner),
        None => None,
    }
}

/// The `new_offset` member of a wrapped comet payload, as an integer.
pub open spec fn comet_new_offset(body: Seq<char>) -> Option<i64> {
    match comet_json(body) {
        Some(v) => match json_field_of(v, "new_offset"@) {
            Some(f) => json_i64_of(f),
            None => None,
        },
        None => None,
    }
}

/// The `data` member of a wrapped comet payload.
pub open spec fn comet_data(body: Seq<char>) -> Option<serde_json::Value> {
    match comet_json(body) {
        Some(v) => json_field_of(v, "data"@),
        None => None,
    }
}

/// The poll URL of a channel state: the base with the channel and the
/// current offset as form-urlencoded query parameters.
pub open spec fn spec_poll_url(base: Seq<char>, channel: Seq<char>, offset: i64) -> Seq<char> {
    base + "?channel="@ + form_encode(channel) + "&offset="@ + form_encode(dec_i64(offset as int))
}

impl PlurkComet {
    /// Parses a channel bootstrap URL, as the platform's `comet_server`
    /// field carries it, into a polling channel.  Fails when the URL lacks
    /// the required query fields or a well-formed offset.
    pub fn new(comet_url: &str) -> (r: Result<PlurkComet, PlurkError>)
        ensures
            r is Ok <==> parse_comet_descriptor(comet_url@) is Some,
            (r matches Ok(c) ==> {
                let d = parse_comet_descriptor(comet_url@).unwrap();
                c.base_url@ == d.0 && c.channel@ == d.1 && c.offset == d.2
            }),
            (r matches Err(e) ==> e.code == CODE_CONFIG),
    {
        let n = comet_url.unicode_len();
        proof {
            lemma_find_pos(comet_url@, '#');
        }
        let stripped = match find_char(comet_url, '#') {
            Some(i) => comet_url.substring_char(0, i),
            None => comet_url,
        };
        proof {
            assert(stripped@ =~= strip_fragment(comet_url@));
            lemma_find_pos(stripped@, '?');
        }
        let m = stripped.unicode_len();
        let (pre, query) = match find_char(stripped, '?') {
            Some(i) => (stripped.substring_char(0, i), stripped.substring_char(i + 1, m)),
            None => {
                return Err(
                    PlurkError::new(CODE_CONFIG, "bootstrap URL has no query string".to_owned()),
                );
            },
        };
        proof {
            assert(pre@ =~= prequery_of_url(comet_url@));
            assert(query@ =~= query_of_url(comet_url@).unwrap());
        }
        let base = match Self::derive_base(pre) {
            Some(b) => b,
            None => {
                return Err(
                    PlurkError::new(CODE_CONFIG, "bootstrap URL has no scheme".to_owned()),
                );
            },
        };
        let segs = split_query(query);
        let channel = match lookup_field(&segs, "channel") {
            Some(Some(v)) => v,
            _ => {
                return Err(
                    PlurkError::new(CODE_CONFIG, "bootstrap URL lacks a channel field".to_owned()),
                );
            },
        };
        let offset_str = match lookup_field(&segs, "offset") {
            Some(Some(v)) => v,
            _ => {
                return Err(
                    PlurkError::new(CODE_CONFIG, "bootstrap URL lacks an offset field".to_owned()),
                );
            },
        };
        let offset = match parse_i64(offset_str.as_str()) {
            Some(v) => v,
            None => {
                return Err(
                    PlurkError::new(
                        CODE_CONFIG,
                        "bootstrap URL offset is not an integer".to_owned(),
                    ),
                );
            },
        };
        Ok(PlurkComet { base_url: base, channel, offset })
    }

    /// Derives the polling base from the pre-query part of a bootstrap URL.
    fn derive_base(pre: &str) -> (r: Option<String>)
        ensures
            match r {
                Some(b) => comet_base_of(pre@) == Some(b@),
                None => comet_base_of(pre@) is None,
            },
    {
        let n = pre.unicode_len();
        let sep = match Self::find_scheme_sep(pre) {
            Some(i) => i,
            None => {
                return None;
            },
        };
        proof {
            lemma_find_sep(pre@);
        }
        let tail = pre.substring_char(sep + 3, n);
        proof {
            assert(tail@ =~= pre@.skip(sep + 3));
        }
        match rfind_char(tail, '/') {
            Some(k) => {
                proof {
                    lemma_last_pos(tail@, '/');
                }
                let mut out = pre.substring_char(0, sep + 3 + k + 1).to_owned();
                out.append("comet");
                proof {
                    assert(pre@.subrange(0, sep + 3 + k + 1) =~= pre@.take(sep + 3 + k + 1));
                    assert(out@ =~= pre@.take(sep + 3 + k + 1) + "comet"@);
                }
                Some(out)
            },
            None => {
                let mut out = pre.to_owned();
                crate::strutil::push_char(&mut out, '/');
                out.append("comet");
                proof {
                    assert(out@ =~= pre@ + seq!['/'] + "comet"@);
                }
                Some(out)
            },
        }
    }

    /// First index of `://` in `s`.
    fn find_scheme_sep(s: &str) -> (r: Option<usize>)
        ensures
            match r {
                Some(i) => find_sep(s@) == Some(i as int),
                None => find_sep(s@) is None,
            },
    {
        let n = s.unicode_len();
        if n < 3 {
            proof {
                lemma_find_sep(s@);
            }
            return None;
        }
        let mut i: usize = 0;
        while i <= n - 3
            invariant
                0 <= i <= n - 2,
                n == s@.len(),
                n >= 3,
                forall|j: int|
                    0 <= j < i ==> !(#[trigger] s@[j] == ':' && s@[j + 1] == '/' && s@[j + 2]
                        == '/'),
            decreases n - i,
        {
            if s.get_char(i) == ':' && s.get_char(i + 1) == '/' && s.get_char(i + 2) == '/' {
                proof {
                    lemma_find_sep(s@);
                }
                return Some(i);
            }
            i = i + 1;
        }
        proof {
            lemma_find_sep(s@);
        }
        None
    }

    /// The current poll URL: the base with `channel` and the latest offset
    /// as query parameters.
    pub fn as_str(&self) -> (r: String)
        ensures
            r@ == spec_poll_url(self.base_url@, self.channel@, self.offset),
    {
        let mut out = self.base_url.clone();
        out.append("?channel=");
        let enc_channel = crate::encoding::form_encode_str(self.channel.as_str());
        out.append(enc_channel.as_str());
        out.append("&offset=");
        let offset_str = crate::numeric::i64_to_string(self.offset);
        let enc_offset = crate::encoding::form_encode_str(offset_str.as_str());
        out.append(enc_offset.as_str());
        assert(out@ =~= spec_poll_url(self.base_url@, self.channel@, self.offset));
        out
    }

    /// The same channel with the offset replaced.
    pub fn update_offset(self, offset: i64) -> (r: PlurkComet)
        ensures
            r.base_url == self.base_url,
            r.channel == self.channel,
            r.offset == offset,
    {
        PlurkComet { base_url: self.base_url, channel: self.channel, offset }
    }

    /// Unwraps a JSONP-wrapped comet payload: the body must carry the exact
    /// literal wrapper pattern (a protocol failure otherwise, as for an HTML
    /// error page), and its inside must be valid JSON (a decode failure
    /// otherwise).
    pub fn query(body: &str) -> (r: Result<serde_json::Value, PlurkError>)
        ensures
            r is Ok <==> comet_json(body@) is Some,
            (r matches Ok(v) ==> comet_json(body@) == Some(v)),
            (r matches Err(e) ==> e.code == (if jsonp_inner(body@) is None {
                CODE_PROTOCOL
            } else {
                CODE_DECODE
            })),
    {
        let n = body.unicode_len();
        let prefix = "CometChannel.scriptCallback(";
        let suffix = ");";
        let plen = prefix.unicode_len();
        let slen = suffix.unicode_len();
        proof {
            reveal_strlit("CometChannel.scriptCallback(");
            reveal_strlit(");");
            assert(plen == 28);
            assert(slen == 2);
        }
        if n < plen + slen || !crate::strutil::starts_with(body, prefix) || !crate::strutil::ends_with(
            body,
            suffix,
        ) {
            return Err(
                PlurkError::new(CODE_PROTOCOL, "comet response lacks the JSONP wrapper".to_owned()),
            );
        }
        let inner = body.substring_char(plen, n - slen);
        proof {
            assert(inner@ =~= jsonp_inner(body@).unwrap());
        }
        match parse_json(inner) {
            Some(v) => Ok(v),
            None => Err(
                PlurkError::new(CODE_DECODE, "comet payload is not valid JSON".to_owned()),
            ),
        }
    }

    /// Applies one poll response to the channel: unwraps and parses the
    /// body, advances the stored offset to the payload's `new_offset`, and
    /// returns the payload's `data`.  On any failure the channel is left
    /// unchanged, so the next poll retries with the same offset.
    pub fn apply_poll_response(&mut self, body: &str) -> (r: Result<serde_json::Value, PlurkError>)
        ensures
            r is Ok <==> comet_new_offset(body@) is Some && comet_data(body@) is Some,
            (r matches Ok(d) ==> {
                &&& comet_data(body@) == Some(d)
                &&& final(self).offset == comet_new_offset(body@).unwrap()
                &&& final(self).base_url == old(self).base_url
                &&& final(self).channel == old(self).channel
            }),
            r is Err ==> *final(self) == *old(self),
            (r matches Err(e) ==> e.code == (if jsonp_inner(body@) is None {
                CODE_PROTOCOL
            } else {
                CODE_DECODE
            })),
    {
        let v = match Self::query(body) {
            Ok(v) => v,
            Err(e) => {
                return Err(e);
            },
        };
        let new_offset = match json_field(&v, "new_offset") {
            Some(f) => match json_as_i64(f) {
                Some(o) => o,
                None => {
                    return Err(
                        PlurkError::new(
                            CODE_DECODE,
                            "comet payload new_offset is not an integer".to_owned(),
                        ),
                    );
                },
            },
            None => {
                return Err(
                    PlurkError::new(CODE_DECODE, "comet payload lacks new_offset".to_owned()),
                );
            },
        };
        let data = match json_field(&v, "data") {
            Some(d) => clone_json(d),
            None => {
                return Err(PlurkError::new(CODE_DECODE, "comet payload lacks data".to_owned()));
            },
        };
        self.offset = new_offset;
        Ok(data)
    }
}

} // verus!
