//! HTTP request and response values as the pipeline sees them.
//!
//! The transport layer hands the pipeline a parsed request (method, URI
//! path, headers, peer address) and takes back a status, headers and a
//! body.  A response may additionally direct the transport's streaming
//! encoder to compress the body on the fly; the pipeline itself never
//! performs the encoding.

use vstd::prelude::*;
use crate::bytes::spec_lower;

verus! {

/// A response encoding the negotiator can pick.
#[derive(Clone, Copy, PartialEq, Eq, Structural, Debug)]
pub enum Encoding {
    Gzip,
    Brotli,
}

/// An incoming request.
pub struct Request {
    /// Request method, upper case (`GET`, `HEAD`, ...).
    pub method: Vec<u8>,
    /// The raw (still percent-encoded) URI path, starting with `/`.
    pub path: Vec<u8>,
    /// Header name/value pairs in arrival order.
    pub headers: Vec<(Vec<u8>, Vec<u8>)>,
    /// Peer address, when the transport knows it.
    pub remote_addr: Option<Vec<u8>>,
}

/// Spec-level model of a request.
pub struct ReqModel {
    pub method: Seq<u8>,
    pub path: Seq<u8>,
    pub headers: Seq<(Seq<u8>, Seq<u8>)>,
    pub remote_addr: Option<Seq<u8>>,
}

impl View for Request {
    type V = ReqModel;

    open spec fn view(&self) -> ReqModel {
        ReqModel {
            method: self.method@,
            path: self.path@,
            headers: self.headers.deep_view(),
            remote_addr: self.remote_addr.deep_view(),
        }
    }
}

/// An outgoing response.
pub struct Response {
    /// HTTP status code.
    pub status: u16,
    /// Header name/value pairs in emission order.
    pub headers: Vec<(Vec<u8>, Vec<u8>)>,
    /// Response body bytes (before any on-the-fly encoding).
    pub body: Vec<u8>,
    /// When set, the transport must stream `body` through the named
    /// encoder; the matching `Content-Encoding` header is already present.
    pub encode_body: Option<Encoding>,
}

/// Spec-level model of a response.
#[verifier::ext_equal]
pub struct RespModel {
    pub status: u16,
    pub headers: Seq<(Seq<u8>, Seq<u8>)>,
    pub body: Seq<u8>,
    pub encode_body: Option<Encoding>,
}

impl View for Response {
    type V = RespModel;

    open spec fn view(&self) -> RespModel {
        RespModel {
            status: self.status,
            headers: self.headers.deep_view(),
            body: self.body@,
            encode_body: self.encode_body,
        }
    }
}

/// The value of the first header whose name, lower-cased, equals `name`.
pub open spec fn spec_find_header(hs: Seq<(Seq<u8>, Seq<u8>)>, name: Seq<u8>) -> Option<Seq<u8>>
    decreases hs.len(),
{
    if hs.len() == 0 {
        None
    } else if spec_lower(hs[0].0) == name {
        Some(hs[0].1)
    } else {
        spec_find_header(hs.drop_first(), name)
    }
}

/// Looks up a header by its lower-case `name`; header names in the request
/// are matched case-insensitively, first occurrence wins.
pub fn find_header(hs: &Vec<(Vec<u8>, Vec<u8>)>, name: &Vec<u8>) -> (r: Option<Vec<u8>>)
    ensures
        r.deep_view() == spec_find_header(hs.deep_view(), name@),
{
    assert(hs.deep_view().skip(0) =~~= hs.deep_view());
    let mut i: usize = 0;
    while i < hs.len()
        invariant
            i <= hs.len(),
            spec_find_header(hs.deep_view(), name@) == spec_find_header(
                hs.deep_view().skip(i as int),
                name@,
            ),
        decreases hs.len() - i,
    {
        let lowered = crate::bytes::lower_bytes(&hs[i].0);
        proof {
            assert(hs.deep_view()[i as int].0 =~= hs@[i as int].0@);
            assert(hs.deep_view()[i as int].1 =~= hs@[i as int].1@);
            assert(hs.deep_view().skip(i as int)[0] == hs.deep_view()[i as int]);
            assert(hs.deep_view().skip(i as int).drop_first() =~~= hs.deep_view().skip(i + 1));
        }
        if &lowered == name {
            assert(lowered@ =~= name@);
            let v = crate::bytes::copy_bytes(&hs[i].1);
            return Some(v);
        }
        i += 1;
    }
    None
}

} // verus!
