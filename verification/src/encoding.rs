//! The bearer-token wire format.
//!
//! A token is `base64(username ++ ":" ++ base64(random_secret_bytes))`: the
//! inner base64 makes the secret printable, the outer one wraps the whole
//! concatenation. Base64 itself is done by the `base64` crate; this module
//! names its results and proves how building a token and taking it apart
//! again relate.

use vstd::prelude::*;
use vstd::slice::{slice_subrange, slice_to_vec};
use vstd::string::StrSliceExecFns;
use vstd::utf8::{
    decode_utf8, encode_scalar, encode_utf8, valid_utf8, char_is_scalar, encode_utf8_decode_utf8,
    encode_utf8_valid_utf8, has_width_1_encoding, is_scalar, leading_byte_width_1,
    leading_byte_width_2, leading_byte_width_3, leading_byte_width_4, last_continuation_byte,
    second_last_continuation_byte, third_last_continuation_byte,
};

verus! {

/// The byte separating the username from the secret inside a decoded token:
/// the UTF-8 encoding of `':'`.
pub const TOKEN_SEPARATOR: u8 = 58;

/// What `base64::encode` returns for the given bytes.
pub uninterp spec fn base64_encoding(bytes: Seq<u8>) -> Seq<char>;

/// What `base64::decode` returns for the given text, collapsed to an
/// `Option`: `None` stands for any decoding error.
pub uninterp spec fn base64_decoding(text: Seq<char>) -> Option<Seq<u8>>;

/// Relies on `base64::encode`, and on the round trip the `base64` crate
/// documents: decoding an encoded value yields the value back.
#[verifier::external_body]
pub(crate) fn b64_encode(bytes: &[u8]) -> (r: String)
    ensures
        r@ == base64_encoding(bytes@),
        base64_decoding(r@) == Some(bytes@),
{
    base64::encode(bytes)
}

/// Relies on `base64::decode`: a failed decode is handed back as `None`.
#[verifier::external_body]
pub(crate) fn b64_decode(text: &str) -> (r: Option<Vec<u8>>)
    ensures
        match r {
            Some(bytes) => base64_decoding(text@) == Some(bytes@),
            None => base64_decoding(text@) is None,
        },
{
    match base64::decode(text) {
        Ok(bytes) => Some(bytes),
        Err(_) => None,
    }
}

/// Relies on `core::str::from_utf8`: it succeeds exactly on valid UTF-8 and
/// returns the string those bytes encode.
#[verifier::external_body]
pub(crate) fn parse_utf8<'a>(bytes: &'a [u8]) -> (r: Option<&'a str>)
    ensures
        match r {
            Some(s) => valid_utf8(bytes@) && encode_utf8(s@) == bytes@,
            None => !valid_utf8(bytes@),
        },
{
    match core::str::from_utf8(bytes) {
        Ok(s) => Some(s),
        Err(_) => None,
    }
}

/// The position of the first occurrence of `target` in `bytes`.
pub open spec fn find_byte(bytes: Seq<u8>, target: u8) -> Option<int>
    decreases bytes.len(),
{
    if bytes.len() == 0 {
        None
    } else if bytes[0] == target {
        Some(0int)
    } else {
        match find_byte(bytes.drop_first(), target) {
            None => None,
            Some(i) => Some(i + 1),
        }
    }
}

/// `find_byte` yields the first occurrence: the found position holds the
/// target and nothing before it does; `None` means no position holds it.
pub proof fn lemma_find_byte_spec(bytes: Seq<u8>, target: u8)
    ensures
        match find_byte(bytes, target) {
            Some(i) => 0 <= i < bytes.len() && bytes[i] == target && forall|j: int|
                0 <= j < i ==> bytes[j] != target,
            None => forall|j: int| 0 <= j < bytes.len() ==> bytes[j] != target,
        },
    decreases bytes.len(),
{
    if bytes.len() > 0 && bytes[0] != target {
        lemma_find_byte_spec(bytes.drop_first(), target);
        assert(forall|j: int|
            1 <= j < bytes.len() ==> bytes[j] == bytes.drop_first()[j - 1]);
    }
}

/// In `prefix ++ [target] ++ suffix`, if the prefix is free of the target,
/// the first occurrence is exactly the one in the middle.
pub proof fn lemma_find_byte_concat_mid(prefix: Seq<u8>, target: u8, suffix: Seq<u8>)
    requires
        forall|j: int| 0 <= j < prefix.len() ==> prefix[j] != target,
    ensures
        find_byte(prefix + seq![target] + suffix, target) == Some(prefix.len() as int),
    decreases prefix.len(),
{
    let whole = prefix + seq![target] + suffix;
    if prefix.len() == 0 {
        assert(whole[0] == target);
    } else {
        assert(whole[0] == prefix[0]);
        lemma_find_byte_concat_mid(prefix.drop_first(), target, suffix);
        assert(whole.drop_first() =~= prefix.drop_first() + seq![target] + suffix);
    }
}

/// Finds the first occurrence of `target` in a byte slice.
pub(crate) fn find_byte_index(bytes: &[u8], target: u8) -> (r: Option<usize>)
    ensures
        match r {
            Some(i) => find_byte(bytes@, target) == Some(i as int),
            None => find_byte(bytes@, target) is None,
        },
{
    proof {
        lemma_find_byte_spec(bytes@, target);
    }
    let len = bytes.len();
    let mut i: usize = 0;
    while i < len
        invariant
            i <= len == bytes@.len(),
            forall|j: int| 0 <= j < i ==> bytes@[j] != target,
            find_byte(bytes@, target) matches Some(k) ==> 0 <= k < bytes@.len()
                && bytes@[k] == target && forall|j: int| 0 <= j < k ==> bytes@[j] != target,
            find_byte(bytes@, target) is None ==> forall|j: int|
                0 <= j < bytes@.len() ==> bytes@[j] != target,
        decreases len - i,
    {
        if *vstd::slice::slice_index_get(bytes, i) == target {
            return Some(i);
        }
        i = i + 1;
    }
    None
}

/// Splits a decoded token payload at the first separator into the
/// username's characters and the secret's bytes, requiring both halves to
/// be valid UTF-8, as the verification path does.
pub open spec fn token_payload_parts(payload: Seq<u8>) -> Option<(Seq<char>, Seq<u8>)> {
    match find_byte(payload, TOKEN_SEPARATOR) {
        None => None,
        Some(i) => {
            let name_bytes = payload.subrange(0, i);
            let secret = payload.subrange(i + 1, payload.len() as int);
            if valid_utf8(name_bytes) && valid_utf8(secret) {
                Some((decode_utf8(name_bytes), secret))
            } else {
                None
            }
        },
    }
}

/// What a presented token decodes and splits into, or `None` where the
/// outer base64, the UTF-8 interpretation, or the separator is missing.
pub open spec fn token_parts(token: Seq<char>) -> Option<(Seq<char>, Seq<u8>)> {
    match base64_decoding(token) {
        None => None,
        Some(payload) => token_payload_parts(payload),
    }
}

/// Builds the bearer token for a username and an already-printable secret.
/// Provided the username is free of `':'`, taking the token apart again
/// yields the username and the secret's bytes.
pub fn encode_token(name: &str, secret_text: &str) -> (token: String)
    ensures
        base64_decoding(token@) == Some(
            encode_utf8(name@) + seq![TOKEN_SEPARATOR] + encode_utf8(secret_text@),
        ),
        token@ == base64_encoding(
            encode_utf8(name@) + seq![TOKEN_SEPARATOR] + encode_utf8(secret_text@),
        ),
        !name@.contains(':') ==> token_parts(token@) == Some(
            (name@, encode_utf8(secret_text@)),
        ),
{
    let mut payload: Vec<u8> = name.as_bytes_vec();
    payload.push(TOKEN_SEPARATOR);
    let mut secret_bytes: Vec<u8> = secret_text.as_bytes_vec();
    payload.append(&mut secret_bytes);
    proof {
        assert(payload@ =~= encode_utf8(name@) + seq![TOKEN_SEPARATOR] + encode_utf8(
            secret_text@,
        ));
    }
    let token = b64_encode(payload.as_slice());
    proof {
        let name_bytes = encode_utf8(name@);
        let secret = encode_utf8(secret_text@);
        let whole = name_bytes + seq![TOKEN_SEPARATOR] + secret;
        if !name@.contains(':') {
            assert forall|i: int| 0 <= i < name@.len() implies name@[i] as u32
                != TOKEN_SEPARATOR as u32 by {
                assert(!name@.contains(name@[i]) ==> false);
                if name@[i] as u32 == 58 {
                    vstd::utf8::char_u32_cast(name@[i], 58);
                    assert(name@.contains(':'));
                }
            }
            lemma_encode_utf8_ascii_free(name@, TOKEN_SEPARATOR);
            lemma_find_byte_concat_mid(name_bytes, TOKEN_SEPARATOR, secret);
            assert(whole.subrange(0, name_bytes.len() as int) =~= name_bytes);
            assert(whole.subrange(name_bytes.len() as int + 1, whole.len() as int) =~= secret);
            encode_utf8_valid_utf8(name@);
            encode_utf8_valid_utf8(secret_text@);
            encode_utf8_decode_utf8(name@);
        }
    }
    token
}

/// Takes a presented token apart: outer base64, then the first separator,
/// then the UTF-8 interpretation of both halves.
pub fn decode_token(token: &str) -> (r: Option<(String, Vec<u8>)>)
    ensures
        match r {
            Some(parts) => token_parts(token@) == Some((parts.0@, parts.1@)),
            None => token_parts(token@) is None,
        },
{
    let payload = match b64_decode(token) {
        Some(p) => p,
        None => {
            return None;
        },
    };
    let sep = match find_byte_index(payload.as_slice(), TOKEN_SEPARATOR) {
        Some(i) => i,
        None => {
            return None;
        },
    };
    proof {
        lemma_find_byte_spec(payload@, TOKEN_SEPARATOR);
    }
    let name_bytes = slice_subrange(payload.as_slice(), 0, sep);
    let secret_slice = slice_subrange(payload.as_slice(), sep + 1, payload.len());
    let name = match parse_utf8(name_bytes) {
        Some(s) => s,
        None => {
            return None;
        },
    };
    match parse_utf8(secret_slice) {
        Some(_) => {},
        None => {
            return None;
        },
    }
    proof {
        encode_utf8_decode_utf8(name@);
    }
    Some((name.to_owned(), slice_to_vec(secret_slice)))
}

/// A scalar other than the given ASCII byte never encodes to that byte.
proof fn lemma_encode_scalar_ascii_free(scalar: u32, byte: u8)
    requires
        is_scalar(scalar),
        byte < 0x80,
        scalar != byte as u32,
    ensures
        forall|j: int| 0 <= j < encode_scalar(scalar).len()
            ==> #[trigger] encode_scalar(scalar)[j] != byte,
{
    if has_width_1_encoding(scalar) {
        assert(leading_byte_width_1(scalar) != byte) by (bit_vector)
            requires
                scalar < 0x80,
                byte < 0x80,
                scalar != byte as u32,
        ;
    } else {
        assert(leading_byte_width_2(scalar) >= 0x80) by (bit_vector);
        assert(leading_byte_width_3(scalar) >= 0x80) by (bit_vector);
        assert(leading_byte_width_4(scalar) >= 0x80) by (bit_vector);
        assert(last_continuation_byte(scalar) >= 0x80) by (bit_vector);
        assert(second_last_continuation_byte(scalar) >= 0x80) by (bit_vector);
        assert(third_last_continuation_byte(scalar) >= 0x80) by (bit_vector);
    }
}

/// The UTF-8 encoding of characters other than the given ASCII character
/// never contains that character's byte.
pub proof fn lemma_encode_utf8_ascii_free(chars: Seq<char>, byte: u8)
    requires
        byte < 0x80,
        forall|i: int| 0 <= i < chars.len() ==> #[trigger] chars[i] as u32 != byte as u32,
    ensures
        forall|j: int| 0 <= j < encode_utf8(chars).len()
            ==> #[trigger] encode_utf8(chars)[j] != byte,
    decreases chars.len(),
{
    if chars.len() > 0 {
        char_is_scalar(chars[0]);
        lemma_encode_scalar_ascii_free(chars[0] as u32, byte);
        lemma_encode_utf8_ascii_free(chars.drop_first(), byte);
        let head = encode_scalar(chars[0] as u32);
        let tail = encode_utf8(chars.drop_first());
        assert(encode_utf8(chars) == head + tail);
        assert forall|j: int| 0 <= j < encode_utf8(chars).len() implies #[trigger] encode_utf8(
            chars,
        )[j] != byte by {
            if j < head.len() {
                assert(encode_utf8(chars)[j] == head[j]);
            } else {
                assert(encode_utf8(chars)[j] == tail[j - head.len()]);
            }
        }
    }
}

} // verus!
