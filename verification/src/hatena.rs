//! Hatena Bookmark count API: the request URL and the reading of its reply.

use vstd::prelude::*;
use vstd::utf8::encode_utf8;

use crate::decimal::decimal;
use crate::decimal::lemma_decimal_digits;
use crate::decimal::lemma_parse_u64_decimal;
use crate::decimal::parse_u64;
use crate::decimal::parse_u64_text;
use crate::text::chars_of;
use crate::text::push_str;
use crate::text::string_from_chars;
use crate::text::trim;
use crate::text::trim_chars;

verus! {

/// The Hatena Bookmark endpoint that answers with the bookmark count of `url=`.
pub open spec fn count_api_base() -> Seq<char> {
    "https://bookmark.hatenaapis.com/count/entry?url="@
}

/// Bytes that `application/x-www-form-urlencoded` serialization leaves as they are.
pub open spec fn form_byte_unchanged(b: u8) -> bool {
    ||| b == 42
    ||| b == 45
    ||| b == 46
    ||| (48 <= b && b <= 57)
    ||| (65 <= b && b <= 90)
    ||| b == 95
    ||| (97 <= b && b <= 122)
}

/// An upper-case hexadecimal digit.
pub open spec fn hex_upper(d: nat) -> char {
    if d < 10 {
        (d + 48) as char
    } else {
        (d + 55) as char
    }
}

/// The serialization of one byte: itself, `+` for a space, or `%XX`.
pub open spec fn form_encode_byte(b: u8) -> Seq<char> {
    if form_byte_unchanged(b) {
        seq![b as char]
    } else if b == 32 {
        seq!['+']
    } else {
        seq!['%', hex_upper((b / 16) as nat), hex_upper((b % 16) as nat)]
    }
}

/// `application/x-www-form-urlencoded` serialization of a byte string.
pub open spec fn form_urlencoded(bytes: Seq<u8>) -> Seq<char>
    decreases bytes.len(),
{
    if bytes.len() == 0 {
        seq![]
    } else {
        form_encode_byte(bytes[0]) + form_urlencoded(bytes.drop_first())
    }
}

/// What `format!("{:?}", s)` writes for a string slice.
pub uninterp spec fn str_debug(s: Seq<char>) -> Seq<char>;

/// Calls `url::form_urlencoded::byte_serialize` on the UTF-8 bytes of `input`
/// and collects the pieces; the contract states the serializer's documented
/// byte mapping.
#[verifier::external_body]
fn form_urlencode(input: &str) -> (r: String)
    ensures
        r@ == form_urlencoded(encode_utf8(input@)),
{
    url::form_urlencoded::byte_serialize(input.as_bytes()).collect()
}

/// Writes `s` with `Debug` formatting (`format!("{:?}", s)`); the contract
/// only names the result.
#[verifier::external_body]
fn debug_quoted(s: &str) -> (r: String)
    ensures
        r@ == str_debug(s@),
{
    format!("{:?}", s)
}

/// Why a count API reply was not a count.
#[derive(Debug)]
pub enum HatenaError {
    /// The reply held nothing but whitespace.
    EmptyResponse,
    /// The reply, trimmed, was not a decimal `u64`; the trimmed text is kept.
    NonNumeric(String),
}

impl HatenaError {
    /// The text of the error message.
    pub open spec fn message_spec(&self) -> Seq<char> {
        match self {
            HatenaError::EmptyResponse => "Hatena count API returned empty response"@,
            HatenaError::NonNumeric(v) => "Hatena count API returned non-numeric response: "@
                + str_debug(v@),
        }
    }

    /// The error message.
    pub fn message(&self) -> (r: String)
        ensures
            r@ == self.message_spec(),
    {
        match self {
            HatenaError::EmptyResponse => {
                let v = chars_of("Hatena count API returned empty response");
                string_from_chars(v.as_slice())
            },
            HatenaError::NonNumeric(value) => {
                let mut v = chars_of("Hatena count API returned non-numeric response: ");
                let quoted = debug_quoted(value.as_str());
                push_str(&mut v, quoted.as_str());
                string_from_chars(v.as_slice())
            },
        }
    }
}

/// The count API URL for the article at `url`: the base endpoint followed by
/// the form-urlencoded article URL.
pub fn count_api_url(url: &str) -> (r: String)
    ensures
        r@ == count_api_base() + form_urlencoded(encode_utf8(url@)),
{
    let encoded = form_urlencode(url);
    let mut v = chars_of("https://bookmark.hatenaapis.com/count/entry?url=");
    push_str(&mut v, encoded.as_str());
    string_from_chars(v.as_slice())
}

/// Reads a count API reply: the trimmed body must be a decimal `u64`.
pub fn parse_count_response(body: &str) -> (r: Result<u64, HatenaError>)
    ensures
        trim(body@).len() == 0 ==> r is Err && r->Err_0 is EmptyResponse,
        trim(body@).len() > 0 ==> match parse_u64(trim(body@)) {
            Some(n) => r == Ok::<u64, HatenaError>(n),
            None => r matches Err(HatenaError::NonNumeric(v)) && v@ == trim(body@),
        },
        forall|n: u64| #[trigger] decimal(n as nat) == trim(body@) ==> r == Ok::<u64, HatenaError>(n),
{
    proof {
        assert forall|n: u64| #[trigger] decimal(n as nat) == trim(body@) implies parse_u64(
            trim(body@),
        ) == Some(n) && trim(body@).len() > 0 by {
            lemma_parse_u64_decimal(n);
            lemma_decimal_digits(n as nat);
        }
    }
    let chars = chars_of(body);
    let value = trim_chars(chars.as_slice());
    if value.len() == 0 {
        return Err(HatenaError::EmptyResponse);
    }
    match parse_u64_text(value.as_slice()) {
        Some(n) => Ok(n),
        None => Err(HatenaError::NonNumeric(string_from_chars(value.as_slice()))),
    }
}

} // verus!
