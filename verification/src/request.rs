//! A request: its method and path, its query and url parameters, its
//! header fields and the text it was read from.

use crate::params::StringMap;
use vstd::prelude::*;
use vstd::string::*;

verus! {

/// A request as the router and the handlers see it.
#[derive(Debug)]
pub struct Request {
    /// The requested path; it begins with `/`.
    pub path: String,
    /// The verb of the request line.
    pub method: String,
    /// The query parameters of the request target.
    pub params: StringMap,
    /// What the placeholders of the matched template captured.
    pub url_params: StringMap,
    /// The header fields.
    pub header: StringMap,
    /// The text that the request was parsed from.
    pub complete_req: String,
}

/// What a `Request` stands for.
pub struct RequestView {
    pub path: Seq<char>,
    pub method: Seq<char>,
    pub params: Map<Seq<char>, Seq<char>>,
    pub url_params: Map<Seq<char>, Seq<char>>,
    pub header: Map<Seq<char>, Seq<char>>,
    pub complete_req: Seq<char>,
}

impl View for Request {
    type V = RequestView;

    open spec fn view(&self) -> RequestView {
        RequestView {
            path: self.path@,
            method: self.method@,
            params: self.params@,
            url_params: self.url_params@,
            header: self.header@,
            complete_req: self.complete_req@,
        }
    }
}

impl Request {
    /// A request for `path` by `method` without parameters or headers.
    pub fn new(path: &str, method: &str, complete: &str) -> (r: Request)
        ensures
            r@ == (RequestView {
                path: path@,
                method: method@,
                params: Map::empty(),
                url_params: Map::empty(),
                header: Map::empty(),
                complete_req: complete@,
            }),
    {
        Request {
            path: path.to_owned(),
            method: method.to_owned(),
            params: StringMap::new(),
            url_params: StringMap::new(),
            header: StringMap::new(),
            complete_req: complete.to_owned(),
        }
    }

    /// Writes a query parameter; a later write to a key replaces the earlier.
    pub fn add(&mut self, key: &str, value: &str)
        ensures
            final(self)@ == (RequestView {
                params: old(self)@.params.insert(key@, value@),
                ..old(self)@
            }),
    {
        self.params.insert(key, value);
    }

    /// Writes a query parameter; a later write to a key replaces the earlier.
    pub fn add_param(&mut self, key: &str, value: &str)
        ensures
            final(self)@ == (RequestView {
                params: old(self)@.params.insert(key@, value@),
                ..old(self)@
            }),
    {
        self.params.insert(key, value);
    }

    /// Writes a header field; a later write to a name replaces the earlier.
    pub fn add_header(&mut self, key: &str, value: &str)
        ensures
            final(self)@ == (RequestView {
                header: old(self)@.header.insert(key@, value@),
                ..old(self)@
            }),
    {
        self.header.insert(key, value);
    }

    /// Replaces the url parameters.
    pub fn set_url_params(&mut self, map: StringMap)
        ensures
            final(self)@ == (RequestView { url_params: map@, ..old(self)@ }),
    {
        self.url_params = map;
    }
}

} // verus!
