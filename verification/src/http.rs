//! What the admin service uses of HTTP: replies, their bodies, and query
//! strings.
//!
//! The values are those of the `http` crate and of `tonic`. What they hold is
//! given a name here, and the contracts of the functions that make and take
//! apart replies are stated over those names.
use bytes::Bytes;
use http_body_util::combinators::UnsyncBoxBody;
use http_body_util::{BodyExt, Full};
use tonic::codegen::http::response::Parts;
use tonic::codegen::http::{Method, Response};
use tonic::Status;
use vstd::multiset::Multiset;
use vstd::prelude::*;
use vstd::utf8::encode_utf8;

verus! {

/// An HTTP response of the `http` crate.
#[verifier::external_type_specification]
#[verifier::external_body]
#[verifier::reject_recursive_types(T)]
pub struct ExResponse<T>(Response<T>);

/// The head of a response: its status, version, headers and extensions.
#[verifier::external_type_specification]
#[verifier::external_body]
pub struct ExParts(Parts);

/// An HTTP method.
#[verifier::external_type_specification]
#[verifier::external_body]
pub struct ExMethod(Method);

/// A type-erased body.
#[verifier::external_type_specification]
#[verifier::external_body]
#[verifier::reject_recursive_types(D)]
#[verifier::reject_recursive_types(E)]
pub struct ExUnsyncBoxBody<D, E>(UnsyncBoxBody<D, E>);

/// A chunk of bytes.
#[verifier::external_type_specification]
#[verifier::external_body]
pub struct ExBytes(Bytes);

/// The error of a type-erased body.
#[verifier::external_type_specification]
#[verifier::external_body]
pub struct ExStatus(Status);

/// The body of a reply, as `tonic` takes it.
pub type Body = UnsyncBoxBody<Bytes, Status>;

/// The head of a response with a text body.
pub uninterp spec fn text_head(response: Response<String>) -> Parts;

/// The text of a response with a text body.
pub uninterp spec fn text_body(response: Response<String>) -> Seq<char>;

/// The head of a reply.
pub uninterp spec fn reply_head(response: Response<Body>) -> Parts;

/// The body of a reply.
pub uninterp spec fn reply_body(response: Response<Body>) -> Body;

/// The bytes that a body gives when it is read to its end.
pub uninterp spec fn body_bytes(body: Body) -> Seq<u8>;

/// The status code of a head.
pub uninterp spec fn parts_status(parts: Parts) -> u16;

/// The names and values of the headers of a head.
pub uninterp spec fn parts_headers(parts: Parts) -> Multiset<(Seq<char>, Seq<u8>)>;

/// The names and values that a form-urlencoded string stands for, percent-decoded
/// and in order.
pub uninterp spec fn form_pairs(input: Seq<u8>) -> Seq<(Seq<char>, Seq<char>)>;

/// The views of pairs of strings.
pub open spec fn pair_views(pairs: Seq<(String, String)>) -> Seq<(Seq<char>, Seq<char>)> {
    pairs.map_values(|pair: (String, String)| (pair.0@, pair.1@))
}

/// `Response::into_parts`: the head and the body of a response.
#[verifier::external_body]
pub(crate) fn into_parts(response: Response<String>) -> (parts: (Parts, String))
    ensures
        parts.0 == text_head(response),
        parts.1@ == text_body(response),
{
    response.into_parts()
}

/// `Response::from_parts`: the response with that head and body.
#[verifier::external_body]
pub(crate) fn from_parts(head: Parts, body: Body) -> (response: Response<Body>)
    ensures
        reply_head(response) == head,
        reply_body(response) == body,
{
    Response::from_parts(head, body)
}

/// `Response::builder` with a status and a body: the response with that status
/// and body and without headers. A status has three digits; the builder
/// refuses others, and unwrapping panics.
#[verifier::external_body]
pub(crate) fn with_status(status: u16, body: Body) -> (response: Response<Body>)
    requires
        100 <= status <= 999,
    ensures
        parts_status(reply_head(response)) == status,
        parts_headers(reply_head(response)) == Multiset::<(Seq<char>, Seq<u8>)>::empty(),
        reply_body(response) == body,
{
    Response::builder().status(status).body(body).unwrap()
}

/// `Full::new`, made into a boxed body: a body of one chunk, the bytes of
/// `body`.
#[verifier::external_body]
pub(crate) fn boxed(body: String) -> (boxed: Body)
    ensures
        body_bytes(boxed) == encode_utf8(body@),
{
    Full::new(Bytes::from(body)).map_err(|err| match err {}).boxed_unsync()
}

/// `tonic::codegen::empty_body`: a body without bytes.
#[verifier::external_body]
pub(crate) fn empty_body() -> (body: Body)
    ensures
        body_bytes(body) == Seq::<u8>::empty(),
{
    tonic::codegen::empty_body()
}

/// `url::form_urlencoded::parse`: the pairs that a form-urlencoded string
/// stands for. An empty string stands for none.
#[verifier::external_body]
pub(crate) fn parse_form(input: &[u8]) -> (pairs: Vec<(String, String)>)
    ensures
        pair_views(pairs@) == form_pairs(input@),
        input@.len() == 0 ==> pairs@.len() == 0,
{
    url::form_urlencoded::parse(input).into_owned().collect()
}

} // verus!
