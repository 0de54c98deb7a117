//! Request and response models: the fields of an HTTP exchange that the
//! matcher reads and the applicator mutates, as plain values.

use vstd::prelude::*;
use crate::headers::pairs_view;
use crate::uri::{Uri, UriView};

verus! {

/// An HTTP request as the engine sees it.
#[derive(Debug, Clone)]
pub struct Request {
    pub uri: Uri,
    pub method: Vec<u8>,
    pub headers: Vec<(Vec<u8>, Vec<u8>)>,
    pub body: Vec<u8>,
}

/// An HTTP response as the engine sees it.
#[derive(Debug, Clone)]
pub struct Response {
    pub code: u16,
    pub headers: Vec<(Vec<u8>, Vec<u8>)>,
    pub body: Vec<u8>,
}

/// Mathematical model of a `Request`.
pub struct RequestView {
    pub uri: UriView,
    pub method: Seq<u8>,
    pub headers: Seq<(Seq<u8>, Seq<u8>)>,
    pub body: Seq<u8>,
}

/// Mathematical model of a `Response`.
pub struct ResponseView {
    pub code: u16,
    pub headers: Seq<(Seq<u8>, Seq<u8>)>,
    pub body: Seq<u8>,
}

impl View for Request {
    type V = RequestView;

    open spec fn view(&self) -> RequestView {
        RequestView {
            uri: self.uri@,
            method: self.method@,
            headers: pairs_view(self.headers@),
            body: self.body@,
        }
    }
}

impl View for Response {
    type V = ResponseView;

    open spec fn view(&self) -> ResponseView {
        ResponseView { code: self.code, headers: pairs_view(self.headers@), body: self.body@ }
    }
}

} // verus!
