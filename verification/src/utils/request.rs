//! Cookies, form bodies, static file paths and body sizes of incoming requests.

use vstd::prelude::*;
use vstd::utf8::encode_utf8;
use crate::utils::text::{
    chars_of, contains, contains_seq, find_char, first_index, last_index, lemma_first_index,
    lemma_last_index, rfind_char, same_text, string_of,
};

verus! {

/// A file path with the media type guessed from its extension.
pub struct PathMime {
    pub mime: String,
    pub path: String,
}

/// The `(name, value)` pairs that `url::form_urlencoded::parse` yields for `input`,
/// percent-decoded, as owned strings.
pub uninterp spec fn form_pairs(input: Seq<u8>) -> Seq<(Seq<char>, Seq<char>)>;

/// The text of each pair.
pub open spec fn pairs_view(v: Seq<(String, String)>) -> Seq<(Seq<char>, Seq<char>)> {
    v.map_values(|p: (String, String)| (p.0@, p.1@))
}

/// Calls `url::form_urlencoded::parse(input).into_owned()` and collects the pairs.
/// The contract claims that the pairs are those named by `form_pairs`, and that an
/// empty input yields none (the parser's `next` returns `None` on empty input).
#[verifier::external_body]
fn parse_form(input: &[u8]) -> (r: Vec<(String, String)>)
    ensures
        pairs_view(r@) == form_pairs(input@),
        input@.len() == 0 ==> r@.len() == 0,
{
    url::form_urlencoded::parse(input).into_owned().collect()
}

/// The pairs of a form-encoded byte string.
pub fn form_fields(input: &[u8]) -> (r: Vec<(String, String)>)
    ensures
        pairs_view(r@) == form_pairs(input@),
{
    parse_form(input)
}

/// The value of the last pair named `key`: what a map built from the pairs in order holds.
pub open spec fn last_value(pairs: Seq<(Seq<char>, Seq<char>)>, key: Seq<char>) -> Option<Seq<char>>
    decreases pairs.len(),
{
    if pairs.len() == 0 {
        None
    } else if pairs.last().0 == key {
        Some(pairs.last().1)
    } else {
        last_value(pairs.drop_last(), key)
    }
}

/// `i` is the position of the last pair named `key`.
pub open spec fn is_last_key(pairs: Seq<(Seq<char>, Seq<char>)>, key: Seq<char>, i: int) -> bool {
    &&& 0 <= i < pairs.len()
    &&& pairs[i].0 == key
    &&& forall|j: int| i < j < pairs.len() ==> pairs[j].0 != key
}

/// No pair is named `key`.
pub open spec fn no_key(pairs: Seq<(Seq<char>, Seq<char>)>, key: Seq<char>) -> bool {
    forall|j: int| 0 <= j < pairs.len() ==> pairs[j].0 != key
}

/// The value found for a name is that of the last pair with the name, wherever it stands
/// among the other pairs; nothing is found when no pair has the name.
pub proof fn law_last_value(pairs: Seq<(Seq<char>, Seq<char>)>, key: Seq<char>)
    ensures
        last_value(pairs, key) is None <==> no_key(pairs, key),
        forall|i: int| is_last_key(pairs, key, i) ==> last_value(pairs, key) == Some(pairs[i].1),
        last_value(pairs, key) is Some ==> exists|i: int| is_last_key(pairs, key, i),
    decreases pairs.len(),
{
    if pairs.len() > 0 {
        let d = pairs.drop_last();
        law_last_value(d, key);
        let n = pairs.len() - 1;
        assert forall|j: int| 0 <= j < n implies #[trigger] pairs[j] == d[j] by {}
        if pairs[n].0 == key {
            assert(is_last_key(pairs, key, n));
            assert forall|i: int| is_last_key(pairs, key, i) implies last_value(pairs, key) == Some(pairs[i].1) by {
                if i < n {
                    assert(pairs[n].0 != key);
                }
            }
        } else {
            assert forall|i: int| is_last_key(pairs, key, i) implies last_value(pairs, key) == Some(pairs[i].1) by {
                assert(is_last_key(d, key, i));
            }
            if last_value(pairs, key) is Some {
                let i = choose|i: int| is_last_key(d, key, i);
                assert forall|j: int| i < j < pairs.len() implies pairs[j].0 != key by {
                    if j < n {
                        assert(d[j].0 != key);
                    }
                }
                assert(is_last_key(pairs, key, i));
            }
            if no_key(d, key) {
                assert forall|j: int| 0 <= j < pairs.len() implies pairs[j].0 != key by {
                    if j < n {
                        assert(d[j].0 != key);
                    }
                }
            }
            if no_key(pairs, key) {
                assert(no_key(d, key));
            }
        }
    }
}

/// The value of the last pair named `key`, if any pair has that name.
pub fn form_value(pairs: &Vec<(String, String)>, key: &str) -> (r: Option<String>)
    ensures
        match r {
            Some(v) => last_value(pairs_view(pairs@), key@) == Some(v@),
            None => last_value(pairs_view(pairs@), key@) is None,
        },
{
    let ghost all = pairs_view(pairs@);
    let mut i: usize = pairs.len();
    assert(all.take(i as int) =~= all);
    while i > 0
        invariant
            i <= pairs@.len(),
            all == pairs_view(pairs@),
            last_value(all.take(i as int), key@) == last_value(all, key@),
        decreases i,
    {
        assert(all.take(i as int).last() == all[i - 1]);
        if same_text(pairs[i - 1].0.as_str(), key) {
            return Some(pairs[i - 1].1.clone());
        }
        assert(all.take(i as int).drop_last() =~= all.take(i - 1));
        i = i - 1;
    }
    assert(all.take(0) =~= Seq::<(Seq<char>, Seq<char>)>::empty());
    None
}

/// The name of the session cookie field.
pub open spec fn token_key() -> Seq<char> {
    seq!['t', 'o', 'k', 'e', 'n', '_', 'i', 'd']
}

/// The session token that a cookie header holds: the last `token_id` field, or empty text.
pub open spec fn spec_get_cookie(full: Seq<char>) -> Seq<char> {
    if full.len() == 0 {
        Seq::empty()
    } else {
        match last_value(form_pairs(encode_utf8(full)), token_key()) {
            Some(v) => v,
            None => Seq::empty(),
        }
    }
}

/// The token of a cookie header is the value of its last `token_id` field, whatever other
/// fields stand before or after it; it is empty when the header is empty or has no such field.
pub proof fn law_cookie_token(full: Seq<char>)
    ensures
        full.len() > 0 ==> forall|i: int|
            is_last_key(form_pairs(encode_utf8(full)), token_key(), i) ==> spec_get_cookie(full)
                == #[trigger] form_pairs(encode_utf8(full))[i].1,
        full.len() == 0 || no_key(form_pairs(encode_utf8(full)), token_key()) ==> spec_get_cookie(
            full,
        ).len() == 0,
{
    law_last_value(form_pairs(encode_utf8(full)), token_key());
}

/// Reads the `token_id` field of a cookie header; empty when there is none.
pub fn get_cookie(full: &str) -> (r: String)
    ensures
        r@ == spec_get_cookie(full@),
        full@.len() > 0 ==> forall|i: int|
            is_last_key(form_pairs(encode_utf8(full@)), token_key(), i) ==> r@
                == #[trigger] form_pairs(encode_utf8(full@))[i].1,
        full@.len() == 0 || no_key(form_pairs(encode_utf8(full@)), token_key()) ==> r@.len() == 0,
{
    proof {
        law_cookie_token(full@);
    }
    if full.is_empty() {
        return String::new();
    }
    let pairs = parse_form(full.as_bytes());
    let key = "token_id";
    proof {
        reveal_strlit("token_id");
        assert(key@ =~= token_key());
    }
    match form_value(&pairs, key) {
        Some(v) => v,
        None => String::new(),
    }
}

/// The media type that `mime_guess` gives for a file extension, falling back to
/// `application/octet-stream`.
pub uninterp spec fn mime_guess_for(ext: Seq<char>) -> Seq<char>;

/// Calls `mime_guess::from_ext(ext).first_or_octet_stream()` and returns the media type's text.
/// The contract claims only that the text is the one named by `mime_guess_for`.
#[verifier::external_body]
fn guess_mime(ext: &str) -> (r: String)
    ensures
        r@ == mime_guess_for(ext@),
{
    let m: mime::Mime = mime_guess::from_ext(ext).first_or_octet_stream();
    m.as_ref().to_string()
}

/// The media type for a file extension.
pub fn get_mime(ext: &str) -> (r: String)
    ensures
        r@ == mime_guess_for(ext@),
{
    guess_mime(ext)
}

/// The two dots of a parent-directory reference.
pub open spec fn parent_ref() -> Seq<char> {
    seq!['.', '.']
}

/// The part of a request target before its query.
pub open spec fn request_path(p: Seq<char>) -> Seq<char> {
    p.take(first_index(p, '?'))
}

/// The text after the last dot.
pub open spec fn extension(p: Seq<char>) -> Seq<char> {
    p.skip(last_index(p, '.') + 1)
}

/// `i` is the position of the last dot of `q`.
pub open spec fn is_last_dot(q: Seq<char>, i: int) -> bool {
    &&& 0 <= i < q.len()
    &&& q[i] == '.'
    &&& forall|j: int| i < j < q.len() ==> q[j] != '.'
}

/// `q` is the part of `p` before its query: a prefix of `p` without `?`, ending where
/// `p` ends or at its first `?`.
pub open spec fn is_query_free_prefix(p: Seq<char>, q: Seq<char>) -> bool {
    &&& q.len() <= p.len()
    &&& q == p.take(q.len() as int)
    &&& forall|j: int| 0 <= j < q.len() ==> q[j] != '?'
    &&& q.len() < p.len() ==> p[q.len() as int] == '?'
}

/// The extension of a path is the text after its last dot, and holds no dot.
pub proof fn law_extension_after_last_dot(q: Seq<char>, i: int)
    requires
        is_last_dot(q, i),
    ensures
        extension(q) == q.skip(i + 1),
        forall|j: int| 0 <= j < extension(q).len() ==> extension(q)[j] != '.',
{
    lemma_last_index(q, '.');
    let k = last_index(q, '.');
    assert(k == i) by {
        if k < i {
            assert(q[i] == '.');
        } else if k > i {
            assert(q[k] == '.');
        }
    }
}

/// The request path of a target is its part before the query.
pub proof fn law_request_path(p: Seq<char>)
    ensures
        is_query_free_prefix(p, request_path(p)),
{
    lemma_first_index(p, '?');
    let q = request_path(p);
    assert(q == p.take(q.len() as int));
}

/// A path that `get_path_and_mime` handles without failing: it is refused,
/// or its part before the query has a dot.
pub open spec fn path_guessable(p: Seq<char>) -> bool {
    contains_seq(p, parent_ref()) || last_index(request_path(p), '.') >= 0
}

/// Whether `get_path_and_mime` can handle the path.
pub fn is_guessable_path(p: &str) -> (r: bool)
    ensures
        r == path_guessable(p@),
{
    let dots = "..";
    proof {
        reveal_strlit("..");
        assert(dots@ =~= parent_ref());
    }
    if contains(p, dots) {
        return true;
    }
    let v = chars_of(p);
    let q = find_char(&v, '?');
    proof {
        lemma_first_index(p@, '?');
    }
    let req = string_of(&v, p, 0, q);
    let rv = chars_of(req.as_str());
    proof {
        assert(rv@ =~= request_path(p@));
    }
    rfind_char(&rv, '.').is_some()
}

/// Splits a static file path into the path proper and its media type; refuses
/// paths with a parent-directory reference.
pub fn get_path_and_mime(path: String) -> (r: Result<PathMime, &'static str>)
    requires
        path_guessable(path@),
    ensures
        match r {
            Ok(pm) => {
                &&& !contains_seq(path@, parent_ref())
                &&& pm.path@ == request_path(path@)
                &&& pm.mime@ == mime_guess_for(extension(request_path(path@)))
                &&& is_query_free_prefix(path@, pm.path@)
                &&& exists|i: int| is_last_dot(pm.path@, i)
                &&& forall|i: int|
                    is_last_dot(pm.path@, i) ==> pm.mime@ == mime_guess_for(
                        #[trigger] pm.path@.skip(i + 1),
                    )
            },
            Err(e) => contains_seq(path@, parent_ref()) && e@ == "Contains backreference."@,
        },
{
    let dots = "..";
    proof {
        reveal_strlit("..");
        assert(dots@ =~= parent_ref());
    }
    if contains(path.as_str(), dots) {
        return Err("Contains backreference.");
    }
    let v = chars_of(path.as_str());
    let query_end = find_char(&v, '?');
    proof {
        lemma_first_index(path@, '?');
    }
    let req_path = string_of(&v, path.as_str(), 0, query_end);
    let rv = chars_of(req_path.as_str());
    proof {
        assert(rv@ =~= request_path(path@));
        lemma_last_index(rv@, '.');
    }
    let found = rfind_char(&rv, '.');
    let dot = found.unwrap();
    let ext = string_of(&rv, req_path.as_str(), dot + 1, rv.len());
    proof {
        assert(ext@ =~= extension(request_path(path@)));
        law_request_path(path@);
        assert(is_last_dot(rv@, dot as int));
        assert forall|i: int| is_last_dot(rv@, i) implies ext@ == #[trigger] rv@.skip(i + 1) by {
            law_extension_after_last_dot(rv@, i);
        }
    }
    let mime = guess_mime(ext.as_str());
    Ok(PathMime { mime, path: req_path })
}

/// Whether `c` is a decimal digit.
pub open spec fn is_digit(c: char) -> bool {
    '0' <= c <= '9'
}

/// The number that a string of decimal digits writes.
pub open spec fn digits_value(s: Seq<char>) -> int
    decreases s.len(),
{
    if s.len() == 0 {
        0
    } else {
        digits_value(s.drop_last()) * 10 + (s.last() as int - '0' as int)
    }
}

/// Every character is a decimal digit.
pub open spec fn all_digits(s: Seq<char>) -> bool {
    forall|i: int| 0 <= i < s.len() ==> is_digit(#[trigger] s[i])
}

/// The digits of an unsigned number, after an optional `+`.
pub open spec fn unsigned_digits(s: Seq<char>) -> Seq<char> {
    if s.len() > 0 && s[0] == '+' {
        s.skip(1)
    } else {
        s
    }
}

/// What `str::parse::<usize>` gives: the number when the text is an optional `+`
/// and at least one digit, and the number fits in a `usize`.
pub open spec fn spec_parse_usize(s: Seq<char>) -> Option<usize> {
    let d = unsigned_digits(s);
    if d.len() > 0 && all_digits(d) && digits_value(d) <= usize::MAX {
        Some(digits_value(d) as usize)
    } else {
        None
    }
}

proof fn lemma_digits_value_nonneg(s: Seq<char>)
    requires
        all_digits(s),
    ensures
        digits_value(s) >= 0,
    decreases s.len(),
{
    if s.len() > 0 {
        assert(all_digits(s.drop_last()));
        lemma_digits_value_nonneg(s.drop_last());
        assert(is_digit(s[s.len() - 1]));
    }
}

proof fn lemma_digits_value_prefix(s: Seq<char>, i: int)
    requires
        all_digits(s),
        0 <= i <= s.len(),
    ensures
        digits_value(s.take(i)) <= digits_value(s),
    decreases s.len(),
{
    if i == s.len() {
        assert(s.take(i) =~= s);
    } else {
        let d = s.drop_last();
        assert(all_digits(d));
        lemma_digits_value_prefix(d, i);
        assert(d.take(i) =~= s.take(i));
        lemma_digits_value_nonneg(d);
        assert(is_digit(s[s.len() - 1]));
    }
}

/// Reads an unsigned decimal number as `str::parse::<usize>` does.
pub fn parse_usize(s: &str) -> (r: Option<usize>)
    ensures
        r == spec_parse_usize(s@),
{
    let v = chars_of(s);
    let n = v.len();
    let start: usize = if n > 0 && v[0] == '+' { 1 } else { 0 };
    let ghost d = unsigned_digits(s@);
    proof {
        assert(d =~= s@.subrange(start as int, n as int));
    }
    if start == n {
        return None;
    }
    let mut acc: usize = 0;
    let mut i: usize = start;
    while i < n
        invariant
            v@ == s@,
            n == s@.len(),
            start <= i <= n,
            d == s@.subrange(start as int, n as int),
            d == unsigned_digits(s@),
            d.len() > 0,
            forall|j: int| start <= j < i ==> is_digit(#[trigger] s@[j]),
            acc == digits_value(s@.subrange(start as int, i as int)),
        decreases n - i,
    {
        let c = v[i];
        if !('0' <= c && c <= '9') {
            proof {
                assert(d[i - start] == s@[i as int]);
                assert(!is_digit(d[i - start]));

            }
            return None;
        }
        let digit: usize = (c as u32 - '0' as u32) as usize;
        let ghost prefix = s@.subrange(start as int, i + 1);
        proof {
            assert(prefix.drop_last() =~= s@.subrange(start as int, i as int));
            assert(prefix.last() == c);
        }
        let next = match acc.checked_mul(10) {
            Some(m) => m.checked_add(digit),
            None => None,
        };
        match next {
            Some(x) => {
                acc = x;
            },
            None => {
                proof {
                    assert(digits_value(prefix) == acc * 10 + digit);
                    assert(digits_value(prefix) > usize::MAX);
                    if all_digits(d) {
                        assert(d.take(i + 1 - start) =~= prefix);
                        lemma_digits_value_prefix(d, i + 1 - start);
                        lemma_digits_value_nonneg(s@.subrange(start as int, i as int));
                    }
                }
                return None;
            },
        }
        i = i + 1;
    }
    proof {
        assert(s@.subrange(start as int, n as int) =~= d);
        assert(all_digits(d));
    }
    Some(acc)
}

/// Whether a request body may be read: its declared length is present, readable
/// as a number, and at most `max_size`.
pub fn body_length_accepted(content_length: Option<&str>, max_size: usize) -> (r: bool)
    ensures
        r == match content_length {
            None => false,
            Some(h) => match spec_parse_usize(h@) {
                Some(len) => len <= max_size,
                None => false,
            },
        },
{
    match content_length {
        None => false,
        Some(h) => match parse_usize(h) {
            Some(len) => len <= max_size,
            None => false,
        },
    }
}

} // verus!
