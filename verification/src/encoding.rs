//! Verified form-urlencoding: the percent-encoding applied to query-string
//! values of poll URLs, and the percent-decoding applied when reading
//! query-string fields out of bootstrap URLs and token responses.
//!
//! The encoding keeps ASCII alphanumerics and `*`, `-`, `.`, `_`, turns a
//! space into `+`, and writes every other character as `%XX` escapes of its
//! UTF-8 bytes with uppercase hex digits.

use vstd::prelude::*;
use vstd::utf8::encode_scalar;
use crate::numeric::digit_char;
use crate::strutil::push_char;

verus! {

broadcast use vstd::utf8::char_is_scalar;

/// Characters that form-urlencoding leaves unchanged.
pub open spec fn is_unreserved(c: char) -> bool {
    ||| 48 <= c as u32 <= 57
    ||| 65 <= c as u32 <= 90
    ||| 97 <= c as u32 <= 122
    ||| c == '*'
    ||| c == '-'
    ||| c == '.'
    ||| c == '_'
}

/// Uppercase hexadecimal digit for a value below sixteen.
pub open spec fn hex_char(d: int) -> char {
    if d < 10 {
        digit_char(d)
    } else {
        ((65 + (d - 10)) as u8) as char
    }
}

/// The `%XX` escape of one byte.
pub open spec fn pct_byte(b: u8) -> Seq<char> {
    seq!['%', hex_char(b as int / 16), hex_char(b as int % 16)]
}

/// The `%XX` escapes of a byte sequence.
pub open spec fn pct_bytes(bs: Seq<u8>) -> Seq<char>
    decreases bs.len(),
{
    if bs.len() == 0 {
        seq![]
    } else {
        pct_byte(bs[0]) + pct_bytes(bs.drop_first())
    }
}

/// Form-urlencoding of one character.
pub open spec fn enc_char(c: char) -> Seq<char> {
    if is_unreserved(c) {
        seq![c]
    } else if c == ' ' {
        seq!['+']
    } else {
        pct_bytes(encode_scalar(c as u32))
    }
}

/// Form-urlencoding of a character sequence.
pub open spec fn form_encode(s: Seq<char>) -> Seq<char>
    decreases s.len(),
{
    if s.len() == 0 {
        seq![]
    } else {
        enc_char(s[0]) + form_encode(s.drop_first())
    }
}

/// Encoding distributes over appending one character at the end.
pub proof fn lemma_form_encode_push(s: Seq<char>, c: char)
    ensures
        form_encode(s.push(c)) == form_encode(s) + enc_char(c),
    decreases s.len(),
{
    if s.len() == 0 {
        reveal_with_fuel(form_encode, 3);
        assert(s.push(c)[0] == c);
        assert(s.push(c).drop_first() =~= Seq::<char>::empty());
        assert(form_encode(s.push(c)) =~= form_encode(s) + enc_char(c));
    } else {
        assert(s.push(c).drop_first() =~= s.drop_first().push(c));
        lemma_form_encode_push(s.drop_first(), c);
        assert(form_encode(s.push(c)) =~= form_encode(s) + enc_char(c));
    }
}

/// Appends the `%XX` escape of one byte.
fn push_pct(out: &mut String, b: u8)
    ensures
        final(out)@ == old(out)@ + pct_byte(b),
{
    push_char(out, '%');
    let hi: u8 = b / 16;
    let lo: u8 = b % 16;
    let hc: char = if hi < 10 {
        (48 + hi) as char
    } else {
        (65 + (hi - 10)) as char
    };
    let lc: char = if lo < 10 {
        (48 + lo) as char
    } else {
        (65 + (lo - 10)) as char
    };
    push_char(out, hc);
    push_char(out, lc);
    assert(final(out)@ =~= old(out)@ + pct_byte(b));
}

/// Form-urlencodes a string.
#[verifier::loop_isolation(false)]
pub fn form_encode_str(s: &str) -> (r: String)
    ensures
        r@ == form_encode(s@),
{
    let n = s.unicode_len();
    let mut out = String::new();
    let mut i: usize = 0;
    while i < n
        invariant
            0 <= i <= n,
            out@ == form_encode(s@.take(i as int)),
        decreases n - i,
    {
        let c = s.get_char(i);
        let u: u32 = c as u32;
        if (48 <= u && u <= 57) || (65 <= u && u <= 90) || (97 <= u && u <= 122) || c == '*' || c
            == '-' || c == '.' || c == '_' {
            push_char(&mut out, c);
            assert(out@ =~= form_encode(s@.take(i as int)) + enc_char(c));
        } else if c == ' ' {
            push_char(&mut out, '+');
            assert(out@ =~= form_encode(s@.take(i as int)) + enc_char(c));
        } else if u < 0x80 {
            let b0: u8 = u as u8;
            push_pct(&mut out, b0);
            proof {
                reveal_with_fuel(pct_bytes, 3);
                assert((u & 0x7F) as u8 == u as u8) by (bit_vector)
                    requires
                        u < 0x80,
                {}
                assert(encode_scalar(u) =~= seq![b0]);
                assert(seq![b0].drop_first() =~= Seq::<u8>::empty());
                assert(pct_bytes(seq![b0]) =~= pct_byte(b0));
            }
        } else if u < 0x800 {
            let b0: u8 = 0xC0 | ((u >> 6) & 0x1F) as u8;
            let b1: u8 = 0x80 | (u & 0x3F) as u8;
            push_pct(&mut out, b0);
            push_pct(&mut out, b1);
            proof {
                reveal_with_fuel(pct_bytes, 4);
                assert(encode_scalar(u) =~= seq![b0, b1]);
                assert(seq![b0, b1].drop_first() =~= seq![b1]);
                assert(seq![b1].drop_first() =~= Seq::<u8>::empty());
                assert(pct_bytes(seq![b0, b1]) =~= pct_byte(b0) + pct_byte(b1));
                assert(out@ =~= form_encode(s@.take(i as int)) + enc_char(c));
            }
        } else if u < 0x10000 {
            let b0: u8 = 0xE0 | ((u >> 12) & 0x0F) as u8;
            let b1: u8 = 0x80 | ((u >> 6) & 0x3F) as u8;
            let b2: u8 = 0x80 | (u & 0x3F) as u8;
            push_pct(&mut out, b0);
            push_pct(&mut out, b1);
            push_pct(&mut out, b2);
            proof {
                reveal_with_fuel(pct_bytes, 5);
                assert(encode_scalar(u) =~= seq![b0, b1, b2]);
                assert(seq![b0, b1, b2].drop_first() =~= seq![b1, b2]);
                assert(seq![b1, b2].drop_first() =~= seq![b2]);
                assert(seq![b2].drop_first() =~= Seq::<u8>::empty());
                assert(pct_bytes(seq![b0, b1, b2]) =~= pct_byte(b0) + pct_byte(b1) + pct_byte(b2));
                assert(out@ =~= form_encode(s@.take(i as int)) + enc_char(c));
            }
        } else {
            let b0: u8 = 0xF0 | ((u >> 18) & 0x7) as u8;
            let b1: u8 = 0x80 | ((u >> 12) & 0x3F) as u8;
            let b2: u8 = 0x80 | ((u >> 6) & 0x3F) as u8;
            let b3: u8 = 0x80 | (u & 0x3F) as u8;
            push_pct(&mut out, b0);
            push_pct(&mut out, b1);
            push_pct(&mut out, b2);
            push_pct(&mut out, b3);
            proof {
                reveal_with_fuel(pct_bytes, 6);
                assert(encode_scalar(u) =~= seq![b0, b1, b2, b3]);
                assert(seq![b0, b1, b2, b3].drop_first() =~= seq![b1, b2, b3]);
                assert(seq![b1, b2, b3].drop_first() =~= seq![b2, b3]);
                assert(seq![b2, b3].drop_first() =~= seq![b3]);
                assert(seq![b3].drop_first() =~= Seq::<u8>::empty());
                assert(pct_bytes(seq![b0, b1, b2, b3]) =~= pct_byte(b0) + pct_byte(b1) + pct_byte(
                    b2,
                ) + pct_byte(b3));
                assert(out@ =~= form_encode(s@.take(i as int)) + enc_char(c));
            }
        }
        proof {
            assert(s@.take(i + 1) =~= s@.take(i as int).push(s@[i as int]));
            lemma_form_encode_push(s@.take(i as int), s@[i as int]);
        }
        i = i + 1;
    }
    assert(s@.take(n as int) =~= s@);
    out
}

/// Characters that OAuth percent-encoding leaves unchanged: the RFC 3986
/// unreserved set.
pub open spec fn is_oauth_unreserved(c: char) -> bool {
    ||| 48 <= c as u32 <= 57
    ||| 65 <= c as u32 <= 90
    ||| 97 <= c as u32 <= 122
    ||| c == '-'
    ||| c == '.'
    ||| c == '_'
    ||| c == '~'
}

/// OAuth percent-encoding of one character.
pub open spec fn oauth_enc_char(c: char) -> Seq<char> {
    if is_oauth_unreserved(c) {
        seq![c]
    } else {
        pct_bytes(encode_scalar(c as u32))
    }
}

/// OAuth percent-encoding of a character sequence, as the signer applies it
/// to credential and parameter values in the `Authorization` header.
pub open spec fn oauth_encode(s: Seq<char>) -> Seq<char>
    decreases s.len(),
{
    if s.len() == 0 {
        seq![]
    } else {
        oauth_enc_char(s[0]) + oauth_encode(s.drop_first())
    }
}

/// Whether `c` is a hexadecimal digit.
pub open spec fn is_hex(c: char) -> bool {
    ||| 48 <= c as u32 <= 57
    ||| 65 <= c as u32 <= 70
    ||| 97 <= c as u32 <= 102
}

/// Value of a hexadecimal digit.
pub open spec fn hex_val(c: char) -> int {
    if 48 <= c as u32 <= 57 {
        c as u32 - 48
    } else if 65 <= c as u32 <= 70 {
        c as u32 - 55
    } else {
        c as u32 - 87
    }
}

/// The byte stream a form-urlencoded string stands for: a `%XX` escape is
/// the byte with that code, `+` is a space, and every other character
/// contributes its UTF-8 bytes.  `None` for a malformed escape.
pub open spec fn pct_byte_stream(s: Seq<char>) -> Option<Seq<u8>>
    decreases s.len(),
{
    if s.len() == 0 {
        Some(seq![])
    } else if s[0] == '%' {
        if s.len() >= 3 && is_hex(s[1]) && is_hex(s[2]) {
            match pct_byte_stream(s.skip(3)) {
                Some(r) => Some(seq![((hex_val(s[1]) * 16 + hex_val(s[2])) as u8)] + r),
                None => None,
            }
        } else {
            None
        }
    } else if s[0] == '+' {
        match pct_byte_stream(s.skip(1)) {
            Some(r) => Some(seq![32u8] + r),
            None => None,
        }
    } else {
        match pct_byte_stream(s.skip(1)) {
            Some(r) => Some(encode_scalar(s[0] as u32) + r),
            None => None,
        }
    }
}

/// Form-urldecoding of a character sequence: the characters whose UTF-8
/// encoding is the string's byte stream.  `None` for a malformed escape or
/// for a byte stream that is not valid UTF-8.
pub open spec fn pct_decode(s: Seq<char>) -> Option<Seq<char>> {
    match pct_byte_stream(s) {
        Some(b) => if vstd::utf8::valid_utf8(b) {
            Some(vstd::utf8::decode_utf8(b))
        } else {
            None
        },
        None => None,
    }
}

/// Appends the UTF-8 bytes of one character.
fn push_utf8_bytes(out: &mut Vec<u8>, c: char)
    ensures
        final(out)@ == old(out)@ + encode_scalar(c as u32),
{
    let u: u32 = c as u32;
    if u < 0x80 {
        out.push(u as u8);
        proof {
            assert((u & 0x7F) as u8 == u as u8) by (bit_vector)
                requires
                    u < 0x80,
            {}
            assert(final(out)@ =~= old(out)@ + encode_scalar(u));
        }
    } else if u < 0x800 {
        out.push(0xC0 | ((u >> 6) & 0x1F) as u8);
        out.push(0x80 | (u & 0x3F) as u8);
        assert(final(out)@ =~= old(out)@ + encode_scalar(u));
    } else if u < 0x10000 {
        out.push(0xE0 | ((u >> 12) & 0x0F) as u8);
        out.push(0x80 | ((u >> 6) & 0x3F) as u8);
        out.push(0x80 | (u & 0x3F) as u8);
        assert(final(out)@ =~= old(out)@ + encode_scalar(u));
    } else {
        out.push(0xF0 | ((u >> 18) & 0x7) as u8);
        out.push(0x80 | ((u >> 12) & 0x3F) as u8);
        out.push(0x80 | ((u >> 6) & 0x3F) as u8);
        out.push(0x80 | (u & 0x3F) as u8);
        assert(final(out)@ =~= old(out)@ + encode_scalar(u));
    }
}

/// Builds a string from UTF-8 bytes.
///
/// Relies on `String::from_utf8`: succeeds exactly on valid UTF-8 and then
/// returns the string whose characters those bytes encode.
#[verifier::external_body]
fn string_from_utf8(b: Vec<u8>) -> (r: Option<String>)
    ensures
        r is Some <==> vstd::utf8::valid_utf8(b@),
        (r matches Some(t) ==> t@ == vstd::utf8::decode_utf8(b@)),
{
    String::from_utf8(b).ok()
}

/// Form-urldecodes a string, rejecting malformed escapes and byte streams
/// that are not valid UTF-8.
#[verifier::loop_isolation(false)]
#[verifier::rlimit(30)]
pub fn pct_decode_str(s: &str) -> (r: Option<String>)
    ensures
        match r {
            Some(t) => pct_decode(s@) == Some(t@),
            None => pct_decode(s@) is None,
        },
{
    let n = s.unicode_len();
    let mut out: Vec<u8> = Vec::new();
    let mut i: usize = 0;
    proof {
        assert(s@.skip(0) =~= s@);
    }
    while i < n
        invariant
            0 <= i <= n,
            pct_byte_stream(s@) == match pct_byte_stream(s@.skip(i as int)) {
                Some(rest) => Some(out@ + rest),
                None => None::<Seq<u8>>,
            },
        decreases n - i,
    {
        let c = s.get_char(i);
        let ghost tail = s@.skip(i as int);
        proof {
            assert(tail.len() == n - i);
            assert(tail[0] == s@[i as int]);
        }
        if c == '%' {
            if n - i < 3 {
                assert(pct_byte_stream(tail) is None);
                return None;
            }
            let h1 = s.get_char(i + 1);
            let h2 = s.get_char(i + 2);
            let u1: u32 = h1 as u32;
            let u2: u32 = h2 as u32;
            proof {
                assert(tail[1] == s@[i as int + 1]);
                assert(tail[2] == s@[i as int + 2]);
            }
            let hx1: u32 = if 48 <= u1 && u1 <= 57 {
                u1 - 48
            } else if 65 <= u1 && u1 <= 70 {
                u1 - 55
            } else if 97 <= u1 && u1 <= 102 {
                u1 - 87
            } else {
                assert(!is_hex(s@[i as int + 1]));
                assert(pct_byte_stream(tail) is None);
                return None;
            };
            let hx2: u32 = if 48 <= u2 && u2 <= 57 {
                u2 - 48
            } else if 65 <= u2 && u2 <= 70 {
                u2 - 55
            } else if 97 <= u2 && u2 <= 102 {
                u2 - 87
            } else {
                assert(!is_hex(s@[i as int + 2]));
                assert(pct_byte_stream(tail) is None);
                return None;
            };
            out.push((hx1 * 16 + hx2) as u8);
            proof {
                assert(tail.skip(3) =~= s@.skip(i + 3));
            }
            i = i + 3;
        } else if c == '+' {
            out.push(32);
            proof {
                assert(tail.skip(1) =~= s@.skip(i + 1));
            }
            i = i + 1;
        } else {
            push_utf8_bytes(&mut out, c);
            proof {
                assert(tail.skip(1) =~= s@.skip(i + 1));
            }
            i = i + 1;
        }
    }
    proof {
        assert(s@.skip(n as int) =~= Seq::<char>::empty());
        assert(pct_byte_stream(s@) == Some(out@ + Seq::<u8>::empty()));
        assert(out@ + Seq::<u8>::empty() =~= out@);
    }
    string_from_utf8(out)
}

} // verus!
