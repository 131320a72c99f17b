//! Login sessions: their tokens, storage keys and cookies.

use vstd::prelude::*;
use vstd::utf8::{encode_utf8, is_ascii_chars, is_ascii_chars_encode_utf8};
use crate::security::{is_alphanumeric, random_alphanumeric};

verus! {

/// How long a session lasts, in seconds: 72 hours.
pub const SESSION_SECONDS: usize = 259200;

/// The number of characters of a session token.
pub const TOKEN_LEN: usize = 32;

/// The storage key under which the session with token `token` is kept.
pub open spec fn spec_session_key(token: Seq<char>) -> Seq<char> {
    "heim:session:"@ + token
}

/// The storage key of a session.
pub fn session_key(token: &str) -> (r: String)
    ensures
        r@ == spec_session_key(token@),
{
    let mut key = String::from_str("heim:session:");
    key.append(token);
    key
}

/// The cookie that hands a session token to the browser, with its expiry date.
pub open spec fn spec_session_cookie(token: Seq<char>, expires: Seq<char>) -> Seq<char> {
    "token_id="@ + token + "; expires="@ + expires
}

/// The cookie text for a session token and its expiry date.
pub fn session_cookie(token: &str, expires: &str) -> (r: String)
    ensures
        r@ == spec_session_cookie(token@, expires@),
{
    let mut cookie = String::from_str("token_id=");
    cookie.append(token);
    cookie.append("; expires=");
    cookie.append(expires);
    cookie
}

/// A fresh session token: thirty-two random ASCII letters and digits.
pub fn new_session_token() -> (r: String)
    ensures
        r@.len() == TOKEN_LEN,
        forall|i: int| 0 <= i < TOKEN_LEN ==> is_alphanumeric(#[trigger] r@[i]),
{
    random_alphanumeric(TOKEN_LEN)
}

/// A session id is looked up only when its UTF-8 encoding is exactly as long as a token.
pub open spec fn spec_is_session_id(id: Seq<char>) -> bool {
    encode_utf8(id).len() == TOKEN_LEN
}

/// Whether `id` has the length of a session token, counted in bytes.
pub fn is_session_id(id: &str) -> (r: bool)
    ensures
        r == spec_is_session_id(id@),
{
    id.as_bytes().len() == TOKEN_LEN
}

/// Every token that `new_session_token` makes is accepted as a session id.
pub proof fn lemma_new_token_is_session_id(token: Seq<char>)
    requires
        token.len() == TOKEN_LEN,
        forall|i: int| 0 <= i < TOKEN_LEN ==> is_alphanumeric(#[trigger] token[i]),
    ensures
        spec_is_session_id(token),
{
    assert(is_ascii_chars(token));
    is_ascii_chars_encode_utf8(token);
}

} // verus!
