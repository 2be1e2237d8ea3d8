//! The verifiable part of the outbound NLU surface: building the request
//! URL for an utterance.  The network call itself lives with the embedder.

use vstd::prelude::*;
use vstd::string::StringSliceAdditionalSpecFns;

use crate::intent_parser::IntentParser;
use crate::text::{chars_to_string, str_to_chars};

verus! {

/// Whether a byte passes through the form serializer unchanged:
/// alphanumerics and `* - . _`.
pub open spec fn form_unchanged(b: u8) -> bool {
    b == 42 || b == 45 || b == 46 || b == 95 || (48 <= b && b <= 57) || (65 <= b && b <= 90) || (97
        <= b && b <= 122)
}

/// The uppercase hex digit for a value below 16.
pub open spec fn hex_digit(n: u8) -> char {
    if n < 10 {
        ((48 + n) as u8) as char
    } else {
        ((55 + n) as u8) as char
    }
}

/// How one byte is form-encoded: unchanged, `+` for a space, or `%` and two
/// uppercase hex digits.
pub open spec fn form_encode_byte(b: u8) -> Seq<char> {
    if form_unchanged(b) {
        seq![b as char]
    } else if b == 32 {
        seq!['+']
    } else {
        seq!['%', hex_digit(b / 16), hex_digit(b % 16)]
    }
}

/// The `application/x-www-form-urlencoded` byte serialization.
pub open spec fn form_encode(bs: Seq<u8>) -> Seq<char>
    decreases bs.len(),
{
    if bs.len() == 0 {
        Seq::<char>::empty()
    } else {
        form_encode_byte(bs[0]) + form_encode(bs.skip(1))
    }
}

/// Relies on url's form_urlencoded::byte_serialize: it passes bytes in
/// `[0-9A-Za-z*-._]` through unchanged, turns a space into `+`, and renders
/// any other byte as `%` followed by two uppercase hex digits.
#[verifier::external_body]
fn form_byte_serialize(input: &[u8]) -> (r: String)
    ensures
        r@ == form_encode(input@),
{
    url::form_urlencoded::byte_serialize(input).collect()
}

/// Resolves an input string using a http connection to an LU client
#[derive(Debug)]
pub struct HttpResolver {
    pub base_url: String,
}

impl HttpResolver {
    /// A resolver aimed at the given endpoint; reading an endpoint
    /// override from the environment is the embedder's business.
    pub fn with_base_url(base_url: String) -> (r: HttpResolver)
        ensures
            r.base_url@ == base_url@,
    {
        HttpResolver { base_url }
    }

    /// The request URL for an utterance: the endpoint with the
    /// form-encoded utterance appended.
    pub fn encode_url(&self, input: &str) -> (r: String)
        ensures
            r@ == self.base_url@ + form_encode(input.spec_bytes()),
    {
        let param = form_byte_serialize(input.as_bytes());
        let mut url = str_to_chars(self.base_url.as_str());
        let mut tail = str_to_chars(param.as_str());
        url.append(&mut tail);
        proof {
            assert(url@ =~= self.base_url@ + form_encode(input.spec_bytes()));
        }
        chars_to_string(url.as_slice())
    }
}

/// Main intent resolver
#[derive(Debug)]
pub struct IntentResolver {
    pub resolver: HttpResolver,
    pub parser: IntentParser,
}

impl IntentResolver {
    pub fn new() -> (r: IntentResolver)
        ensures
            r.parser.mode is None,
            r.resolver.base_url@ == "http://luisendpoint.azurewebsites.net/?text="@,
    {
        IntentResolver {
            resolver: HttpResolver::with_base_url(
                "http://luisendpoint.azurewebsites.net/?text=".to_owned(),
            ),
            parser: IntentParser::new(),
        }
    }
}

} // verus!
