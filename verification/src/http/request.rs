//! Requests: the request line of an HTTP/1.1 message, decoded from bytes.

use vstd::prelude::*;
use vstd::std_specs::convert::{FromSpecImpl, TryFromSpecImpl};
use vstd::utf8::{
    decode_utf8, encode_utf8, encode_utf8_decode_utf8, encode_utf8_valid_utf8, valid_utf8,
};
use core::convert::TryFrom;
use core::str::FromStr;
use core::str::Utf8Error;
use crate::http::method::{Method, MethodError};
use crate::http::query_string::{query_map, QueryString, ValueView};
use crate::http::text::{cut, lacks, lemma_cut_concat, lemma_cut_none, split_at_first, str_eq};

verus! {

/// Why a buffer does not hold a request.
#[derive(Clone, Copy, Debug, PartialEq, Eq, Structural)]
pub enum ParseError {
    /// The request line lacks its method, its target or its protocol.
    InvalidRequest,
    /// The bytes are not UTF-8.
    InvalidEncoding,
    /// The protocol is not `HTTP/1.1`.
    InvalidProtocol,
    /// The method token names no method.
    InvalidMethod,
}

impl ParseError {
    /// The text of `message`.
    pub open spec fn message_text(self) -> Seq<char> {
        match self {
            ParseError::InvalidRequest => "Invalid Request"@,
            ParseError::InvalidEncoding => "Invalid Encoding"@,
            ParseError::InvalidProtocol => "Invalid Protocol"@,
            ParseError::InvalidMethod => "Invalid Method"@,
        }
    }

    /// A short description of the error, for display.
    pub fn message(&self) -> (r: &str)
        ensures
            r@ == self.message_text(),
    {
        match self {
            ParseError::InvalidRequest => "Invalid Request",
            ParseError::InvalidEncoding => "Invalid Encoding",
            ParseError::InvalidProtocol => "Invalid Protocol",
            ParseError::InvalidMethod => "Invalid Method",
        }
    }
}

impl From<MethodError> for ParseError {
    /// A token that names no method is an invalid method.
    fn from(e: MethodError) -> (r: Self)
        ensures
            r == ParseError::InvalidMethod,
    {
        ParseError::InvalidMethod
    }
}

impl FromSpecImpl<MethodError> for ParseError {
    open spec fn obeys_from_spec() -> bool {
        true
    }

    open spec fn from_spec(e: MethodError) -> Self {
        ParseError::InvalidMethod
    }
}

impl From<Utf8Error> for ParseError {
    /// Bytes that are not UTF-8 are an invalid encoding.
    fn from(e: Utf8Error) -> (r: Self)
        ensures
            r == ParseError::InvalidEncoding,
    {
        ParseError::InvalidEncoding
    }
}

impl FromSpecImpl<Utf8Error> for ParseError {
    open spec fn obeys_from_spec() -> bool {
        true
    }

    open spec fn from_spec(e: Utf8Error) -> Self {
        ParseError::InvalidEncoding
    }
}

/// A request as plain values.
pub ghost struct RequestView {
    /// The target up to its first `?`, or all of it.
    pub path: Seq<char>,
    /// What follows the first `?` of the target, decoded.
    pub query_string: Option<Map<Seq<char>, ValueView>>,
    /// The method.
    pub method: Method,
}

/// The word that `s` starts with, up to its first space or carriage return,
/// and what follows that delimiter; `None` when `s` holds neither.
pub open spec fn next_word(s: Seq<char>) -> Option<(Seq<char>, Seq<char>)> {
    cut(s, ' ', '\r')
}

/// The one protocol token that is accepted.
pub open spec fn protocol() -> Seq<char> {
    seq!['H', 'T', 'T', 'P', '/', '1', '.', '1']
}

/// Path and query of a request target: the sides of its first `?`, the
/// second one decoded; a target without `?` is all path.
pub open spec fn split_target(target: Seq<char>) -> (Seq<char>, Option<Map<Seq<char>, ValueView>>) {
    match cut(target, '?', '?') {
        Some((path, query)) => (path, Some(query_map(query))),
        None => (target, None),
    }
}

/// What the three words of a request line amount to.
pub open spec fn assemble(method: Seq<char>, target: Seq<char>, proto: Seq<char>) -> Result<
    RequestView,
    ParseError,
> {
    if proto != protocol() {
        Err(ParseError::InvalidProtocol)
    } else {
        match Method::named(method) {
            None => Err(ParseError::InvalidMethod),
            Some(m) => Ok(
                RequestView {
                    path: split_target(target).0,
                    query_string: split_target(target).1,
                    method: m,
                },
            ),
        }
    }
}

/// What a text decodes to: its first three words are method, target and
/// protocol, and whatever follows the third is ignored.
pub open spec fn parse_request_line(text: Seq<char>) -> Result<RequestView, ParseError> {
    match next_word(text) {
        None => Err(ParseError::InvalidRequest),
        Some((method, rest)) => match next_word(rest) {
            None => Err(ParseError::InvalidRequest),
            Some((target, rest)) => match next_word(rest) {
                None => Err(ParseError::InvalidRequest),
                Some((proto, _)) => assemble(method, target, proto),
            },
        },
    }
}

/// What a buffer decodes to.
pub open spec fn parse_request(buf: Seq<u8>) -> Result<RequestView, ParseError> {
    if valid_utf8(buf) {
        parse_request_line(decode_utf8(buf))
    } else {
        Err(ParseError::InvalidEncoding)
    }
}

/// The UTF-8 bytes of a text decode as the text does; bytes that are not
/// UTF-8 are refused for their encoding, whatever else they hold.
pub proof fn lemma_parse_bytes(text: Seq<char>, buf: Seq<u8>)
    ensures
        parse_request(encode_utf8(text)) == parse_request_line(text),
        !valid_utf8(buf) ==> parse_request(buf) == Err::<RequestView, ParseError>(
            ParseError::InvalidEncoding,
        ),
{
    encode_utf8_valid_utf8(text);
    encode_utf8_decode_utf8(text);
}

/// Whether `c` ends a word.
pub open spec fn is_delimiter(c: char) -> bool {
    c == ' ' || c == '\r'
}

/// Whether `s` holds no delimiter.
pub open spec fn is_word(s: Seq<char>) -> bool {
    lacks(s, ' ') && lacks(s, '\r')
}

/// A word followed by a delimiter is the next word, and what follows the
/// delimiter is the remainder.
pub proof fn lemma_next_word(word: Seq<char>, d: char, rest: Seq<char>)
    requires
        is_word(word),
        is_delimiter(d),
    ensures
        next_word(word + seq![d] + rest) == Some((word, rest)),
{
    lemma_cut_concat(word, d, rest, ' ', '\r');
}

/// Text without a delimiter has no next word.
pub proof fn lemma_no_next_word(word: Seq<char>)
    requires
        is_word(word),
    ensures
        next_word(word) is None,
{
    lemma_cut_none(word, ' ', '\r');
}

/// A text that starts with three delimited words decodes as those three
/// words do, whatever follows them.
pub proof fn lemma_three_words(
    method: Seq<char>,
    d1: char,
    target: Seq<char>,
    d2: char,
    proto: Seq<char>,
    d3: char,
    rest: Seq<char>,
)
    requires
        is_word(method),
        is_word(target),
        is_word(proto),
        is_delimiter(d1),
        is_delimiter(d2),
        is_delimiter(d3),
    ensures
        parse_request_line(method + seq![d1] + (target + seq![d2] + (proto + seq![d3] + rest)))
            == assemble(method, target, proto),
{
    lemma_next_word(method, d1, target + seq![d2] + (proto + seq![d3] + rest));
    lemma_next_word(target, d2, proto + seq![d3] + rest);
    lemma_next_word(proto, d3, rest);
}

/// A complete request line whose protocol is not `HTTP/1.1` is refused for
/// its protocol, whatever its method.
pub proof fn lemma_other_protocol(
    method: Seq<char>,
    d1: char,
    target: Seq<char>,
    d2: char,
    proto: Seq<char>,
    d3: char,
    rest: Seq<char>,
)
    requires
        is_word(method),
        is_word(target),
        is_word(proto),
        is_delimiter(d1),
        is_delimiter(d2),
        is_delimiter(d3),
        proto != protocol(),
    ensures
        parse_request_line(method + seq![d1] + (target + seq![d2] + (proto + seq![d3] + rest)))
            == Err::<RequestView, ParseError>(ParseError::InvalidProtocol),
{
    lemma_three_words(method, d1, target, d2, proto, d3, rest);
}

/// A request line that ends with its protocol token, with no delimiter
/// behind it, is refused as incomplete, whatever the token is.
pub proof fn lemma_unterminated_protocol(
    method: Seq<char>,
    d1: char,
    target: Seq<char>,
    d2: char,
    proto: Seq<char>,
)
    requires
        is_word(method),
        is_word(target),
        is_word(proto),
        is_delimiter(d1),
        is_delimiter(d2),
    ensures
        parse_request_line(method + seq![d1] + (target + seq![d2] + proto)) == Err::<
            RequestView,
            ParseError,
        >(ParseError::InvalidRequest),
{
    lemma_next_word(method, d1, target + seq![d2] + proto);
    lemma_next_word(target, d2, proto);
    lemma_no_next_word(proto);
}

/// A request line of fewer than three words is refused as incomplete.
pub proof fn lemma_missing_words(method: Seq<char>, d1: char, target: Seq<char>)
    requires
        is_word(method),
        is_word(target),
        is_delimiter(d1),
    ensures
        parse_request_line(method) == Err::<RequestView, ParseError>(ParseError::InvalidRequest),
        parse_request_line(method + seq![d1] + target) == Err::<RequestView, ParseError>(
            ParseError::InvalidRequest,
        ),
{
    lemma_no_next_word(method);
    lemma_next_word(method, d1, target);
    lemma_no_next_word(target);
}

/// A target splits at its first `?` and nowhere else: the query may hold
/// more of them.
pub proof fn lemma_target_with_query(path: Seq<char>, query: Seq<char>)
    requires
        lacks(path, '?'),
    ensures
        split_target(path + seq!['?'] + query) == (path, Some(query_map(query))),
{
    lemma_cut_concat(path, '?', query, '?', '?');
}

/// A target without `?` is all path and has no query.
pub proof fn lemma_target_without_query(target: Seq<char>)
    requires
        lacks(target, '?'),
    ensures
        split_target(target) == (target, None::<Map<Seq<char>, ValueView>>),
{
    lemma_cut_none(target, '?', '?');
}

/// A decoded request. Its slices are borrowed from the buffer it was decoded
/// from.
#[derive(Debug)]
pub struct Request<'buf> {
    path: &'buf str,
    query_string: Option<QueryString<'buf>>,
    method: Method,
}

impl<'buf> View for Request<'buf> {
    type V = RequestView;

    closed spec fn view(&self) -> RequestView {
        RequestView {
            path: self.path@,
            query_string: match self.query_string {
                Some(q) => Some(q@),
                None => None,
            },
            method: self.method,
        }
    }
}

/// Whether `r` is the outcome of decoding `buf`.
pub open spec fn decoded(buf: Seq<u8>, r: Result<Request, ParseError>) -> bool {
    match r {
        Ok(request) => parse_request(buf) == Ok::<RequestView, ParseError>(request@),
        Err(e) => parse_request(buf) == Err::<RequestView, ParseError>(e),
    }
}

/// Decoding one buffer twice gives the same outcome: two requests with
/// equal path, query and method, or the same error twice.
pub proof fn lemma_decode_twice(
    buf: Seq<u8>,
    first: Result<Request, ParseError>,
    second: Result<Request, ParseError>,
)
    requires
        decoded(buf, first),
        decoded(buf, second),
    ensures
        match (first, second) {
            (Ok(a), Ok(b)) => a@ == b@,
            (Err(e), Err(f)) => e == f,
            _ => false,
        },
{
}

impl<'buf> Request<'buf> {
    /// The path: the target without its query.
    pub fn path(&self) -> (r: &str)
        ensures
            r@ == self@.path,
    {
        &self.path
    }

    /// The method.
    pub fn method(&self) -> (r: &Method)
        ensures
            *r == self@.method,
    {
        &self.method
    }

    /// The decoded query, where the target had one.
    pub fn query_string(&self) -> (r: Option<&QueryString<'buf>>)
        ensures
            match r {
                Some(q) => self@.query_string == Some(q@),
                None => self@.query_string is None,
            },
    {
        self.query_string.as_ref()
    }
}

/// Splits `request` at its first space or carriage return into the word
/// before it and the text after it.
pub fn get_next_word(request: &str) -> (r: Option<(&str, &str)>)
    ensures
        match r {
            Some((word, rest)) => next_word(request@) == Some((word@, rest@)),
            None => next_word(request@) is None,
        },
{
    split_at_first(request, ' ', '\r')
}

impl<'buf> TryFrom<&'buf [u8]> for Request<'buf> {
    type Error = ParseError;

    /// Decodes the request line at the start of `buf`. The first failure, in
    /// the order encoding, request line, protocol, method, is the error.
    fn try_from(buf: &'buf [u8]) -> (r: Result<Self, Self::Error>)
        ensures
            decoded(buf@, r),
    {
        let text = match core::str::from_utf8(buf) {
            Ok(text) => text,
            Err(e) => {
                return Err(ParseError::from(e));
            },
        };
        proof {
            encode_utf8_decode_utf8(text@);
        }
        let (method, rest) = match get_next_word(text) {
            Some(found) => found,
            None => {
                return Err(ParseError::InvalidRequest);
            },
        };
        let (target, rest) = match get_next_word(rest) {
            Some(found) => found,
            None => {
                return Err(ParseError::InvalidRequest);
            },
        };
        let (proto, _) = match get_next_word(rest) {
            Some(found) => found,
            None => {
                return Err(ParseError::InvalidRequest);
            },
        };
        proof {
            reveal_strlit("HTTP/1.1");
            assert("HTTP/1.1"@ =~= protocol());
        }
        if !str_eq(proto, "HTTP/1.1") {
            return Err(ParseError::InvalidProtocol);
        }
        let method = match Method::from_str(method) {
            Ok(method) => method,
            Err(e) => {
                return Err(ParseError::from(e));
            },
        };
        let (path, query_string) = match split_at_first(target, '?', '?') {
            Some((path, query)) => (path, Some(QueryString::from(query))),
            None => (target, None),
        };
        Ok(Request { path, query_string, method })
    }
}

/// `try_from` is stated by its own `ensures`, over the view of its result:
/// the borrowed representation has no value in specifications that a result
/// could be equated with, so `try_from_spec` is left unused.
impl<'buf> TryFromSpecImpl<&'buf [u8]> for Request<'buf> {
    open spec fn obeys_try_from_spec() -> bool {
        false
    }

    open spec fn try_from_spec(buf: &'buf [u8]) -> Result<Self, Self::Error> {
        arbitrary()
    }
}

} // verus!
