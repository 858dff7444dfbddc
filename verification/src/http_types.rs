use vstd::prelude::*;
use http::header::{HeaderMap, HeaderValue};
use http::{Method, Uri};
use crate::body::hyper_body;
use crate::code::hyper_code;
use crate::headers::{copy_bytes, hyper_headers, value_groups, HeaderCaseMap};
use crate::task::hyper_task_return_type;

verus! {

/// A byte that may stand in a request method.
pub open spec fn is_method_byte(b: u8) -> bool {
    ||| b == 33
    ||| b == 42
    ||| b == 43
    ||| b == 45
    ||| b == 46
    ||| 48 <= b <= 57
    ||| 65 <= b <= 90
    ||| 94 <= b <= 122
    ||| b == 124
    ||| b == 126
}

/// The grammar of a request method: one byte or more, each of them a
/// method byte. Letters keep their case.
pub open spec fn is_method(src: Seq<u8>) -> bool {
    &&& src.len() >= 1
    &&& forall|i: int| 0 <= i < src.len() ==> is_method_byte(#[trigger] src[i])
}

/// Whether `Uri::from_maybe_shared` accepts these bytes as a URI.
pub uninterp spec fn uri_accepts(src: Seq<u8>) -> bool;

/// The longest URI that is accepted, in bytes.
pub const MAX_URI_LEN: usize = 65534;

/// `Method::from_bytes` and `Method::as_str`: accepts exactly the methods
/// of the grammar, and spells an accepted method as it was written.
#[verifier::external_body]
fn method_from_bytes(src: &[u8]) -> (r: Option<Vec<u8>>)
    ensures
        r.is_some() == is_method(src@),
        r matches Some(text) ==> text@ == src@,
{
    Method::from_bytes(src).ok().map(|method| method.as_str().as_bytes().to_vec())
}

/// `Uri::from_maybe_shared`: whether the bytes are accepted as a URI. The
/// empty string and one longer than `MAX_URI_LEN` are refused.
#[verifier::external_body]
fn uri_from_bytes(src: &[u8]) -> (accepted: bool)
    ensures
        accepted == uri_accepts(src@),
        accepted ==> 1 <= src@.len() <= MAX_URI_LEN,
{
    Uri::from_maybe_shared(src.to_vec()).is_ok()
}

/// A request that is being put together.
pub struct hyper_request {
    method: Vec<u8>,
    uri: Vec<u8>,
    headers: HeaderMap<HeaderValue>,
    casing: Option<HeaderCaseMap>,
    attached: Option<hyper_headers>,
    body: hyper_body,
}

impl hyper_request {
    /// The method; empty until one is set.
    pub closed spec fn method_spec(&self) -> Seq<u8> {
        self.method@
    }

    /// The URI as it was written; empty until one is set.
    pub closed spec fn uri_spec(&self) -> Seq<u8> {
        self.uri@
    }

    /// The values in the message's own header storage.
    pub closed spec fn stored_values(&self) -> Seq<(Seq<u8>, Seq<Seq<u8>>)> {
        value_groups(self.headers)
    }

    /// The spellings that go with the message's own header storage, if any.
    pub closed spec fn stored_casings(&self) -> Option<Seq<(Seq<u8>, Seq<Seq<u8>>)>> {
        match self.casing {
            Some(casing) => Some(casing@),
            None => None,
        }
    }

    /// The headers that were attached for editing, if any.
    pub closed spec fn attached(&self) -> Option<hyper_headers> {
        self.attached
    }

    /// The body.
    pub closed spec fn body_spec(&self) -> hyper_body {
        self.body
    }

    /// A new request: no method, no URI, no headers, the empty body.
    pub fn new() -> (r: hyper_request)
        ensures
            r.method_spec() == Seq::<u8>::empty(),
            r.uri_spec() == Seq::<u8>::empty(),
            r.stored_values() == Seq::<(Seq<u8>, Seq<Seq<u8>>)>::empty(),
            r.stored_casings() is None,
            r.attached() is None,
            r.body_spec().stream() is None,
    {
        hyper_request {
            method: Vec::new(),
            uri: Vec::new(),
            headers: hyper_headers::new().into_parts().0,
            casing: None,
            attached: None,
            body: hyper_body::empty(),
        }
    }

    /// The method.
    pub fn method(&self) -> (r: &[u8])
        ensures
            r@ == self.method_spec(),
    {
        self.method.as_slice()
    }

    /// The URI.
    pub fn uri(&self) -> (r: &[u8])
        ensures
            r@ == self.uri_spec(),
    {
        self.uri.as_slice()
    }

    /// Sets the method. Returns `HYPERE_OK` exactly where `method` meets
    /// the grammar, and the request then has it as written. Otherwise it
    /// returns `HYPERE_INVALID_ARG` and the request is unchanged.
    pub fn set_method(&mut self, method: &[u8]) -> (code: hyper_code)
        ensures
            code == if is_method(method@) {
                hyper_code::HYPERE_OK
            } else {
                hyper_code::HYPERE_INVALID_ARG
            },
            is_method(method@) ==> final(self).method_spec() == method@,
            !is_method(method@) ==> final(self).method_spec() == old(self).method_spec(),
            final(self).uri_spec() == old(self).uri_spec(),
            final(self).stored_values() == old(self).stored_values(),
            final(self).stored_casings() == old(self).stored_casings(),
            final(self).attached() == old(self).attached(),
            final(self).body_spec() == old(self).body_spec(),
    {
        match method_from_bytes(method) {
            Some(text) => {
                self.method = text;
                hyper_code::HYPERE_OK
            },
            None => hyper_code::HYPERE_INVALID_ARG,
        }
    }

    /// Takes `uri` as the request's URI where `accepted` says that it is
    /// one, and returns `HYPERE_OK`. Otherwise it returns
    /// `HYPERE_INVALID_ARG` and the request is unchanged.
    pub fn apply_uri(&mut self, uri: &[u8], accepted: bool) -> (code: hyper_code)
        ensures
            code == if accepted {
                hyper_code::HYPERE_OK
            } else {
                hyper_code::HYPERE_INVALID_ARG
            },
            accepted ==> final(self).uri_spec() == uri@,
            !accepted ==> final(self).uri_spec() == old(self).uri_spec(),
            final(self).method_spec() == old(self).method_spec(),
            final(self).stored_values() == old(self).stored_values(),
            final(self).stored_casings() == old(self).stored_casings(),
            final(self).attached() == old(self).attached(),
            final(self).body_spec() == old(self).body_spec(),
    {
        if accepted {
            self.uri = copy_bytes(uri);
            hyper_code::HYPERE_OK
        } else {
            hyper_code::HYPERE_INVALID_ARG
        }
    }

    /// Sets the URI. Returns `HYPERE_OK` exactly where `uri` is accepted as
    /// a URI, and the request then has it as written. Otherwise it returns
    /// `HYPERE_INVALID_ARG` and the request is unchanged; the empty string
    /// and one longer than `MAX_URI_LEN` are never accepted.
    pub fn set_uri(&mut self, uri: &[u8]) -> (code: hyper_code)
        ensures
            code == if uri_accepts(uri@) {
                hyper_code::HYPERE_OK
            } else {
                hyper_code::HYPERE_INVALID_ARG
            },
            uri_accepts(uri@) ==> final(self).uri_spec() == uri@,
            !uri_accepts(uri@) ==> final(self).uri_spec() == old(self).uri_spec(),
            !(1 <= uri@.len() <= MAX_URI_LEN) ==> code == hyper_code::HYPERE_INVALID_ARG,
            final(self).method_spec() == old(self).method_spec(),
            final(self).stored_values() == old(self).stored_values(),
            final(self).stored_casings() == old(self).stored_casings(),
            final(self).attached() == old(self).attached(),
            final(self).body_spec() == old(self).body_spec(),
    {
        let accepted = uri_from_bytes(uri);
        self.apply_uri(uri, accepted)
    }

    /// The headers to edit. Empty headers are attached at the first call;
    /// later calls give the same ones. What the caller does to them is done
    /// to the request, and nothing else of the request changes.
    pub fn headers(&mut self) -> (r: &mut hyper_headers)
        ensures
            old(self).attached() matches Some(attached) ==> *r == attached,
            old(self).attached() is None ==> {
                &&& r.values() == Seq::<(Seq<u8>, Seq<Seq<u8>>)>::empty()
                &&& r.casings() == Seq::<(Seq<u8>, Seq<Seq<u8>>)>::empty()
            },
            final(self).attached() == Some(*final(r)),
            final(self).method_spec() == old(self).method_spec(),
            final(self).uri_spec() == old(self).uri_spec(),
            final(self).stored_values() == old(self).stored_values(),
            final(self).stored_casings() == old(self).stored_casings(),
            final(self).body_spec() == old(self).body_spec(),
    {
        hyper_headers::get_or_default(&mut self.attached)
    }

    /// Makes `body` the request's body; the body it had is dropped.
    pub fn set_body(&mut self, body: hyper_body) -> (code: hyper_code)
        ensures
            code == hyper_code::HYPERE_OK,
            final(self).body_spec() == body,
            final(self).method_spec() == old(self).method_spec(),
            final(self).uri_spec() == old(self).uri_spec(),
            final(self).stored_values() == old(self).stored_values(),
            final(self).stored_casings() == old(self).stored_casings(),
            final(self).attached() == old(self).attached(),
    {
        self.body = body;
        hyper_code::HYPERE_OK
    }

    /// Folds the attached headers into the message before it is sent: their
    /// values become the message's header storage, their spellings go with
    /// it, and nothing stays attached. A request without attached headers
    /// is unchanged.
    pub fn finalize_request(&mut self)
        ensures
            old(self).attached() matches Some(attached) ==> {
                &&& final(self).stored_values() == attached.values()
                &&& final(self).stored_casings() == Some(attached.casings())
            },
            old(self).attached() is None ==> {
                &&& final(self).stored_values() == old(self).stored_values()
                &&& final(self).stored_casings() == old(self).stored_casings()
            },
            final(self).attached() is None,
            final(self).method_spec() == old(self).method_spec(),
            final(self).uri_spec() == old(self).uri_spec(),
            final(self).body_spec() == old(self).body_spec(),
    {
        if let Some(headers) = self.attached.take() {
            let (values, casing) = headers.into_parts();
            self.headers = values;
            self.casing = Some(casing);
        }
    }

    /// Takes the request apart: method, URI, header storage, the spellings
    /// that go with it, the attached headers, and the body.
    pub fn into_parts(self) -> (r: (
        Vec<u8>,
        Vec<u8>,
        HeaderMap<HeaderValue>,
        Option<HeaderCaseMap>,
        Option<hyper_headers>,
        hyper_body,
    ))
        ensures
            r.0@ == self.method_spec(),
            r.1@ == self.uri_spec(),
            value_groups(r.2) == self.stored_values(),
            r.3 is Some == self.stored_casings() is Some,
            r.3 matches Some(casing) ==> Some(casing@) == self.stored_casings(),
            r.4 == self.attached(),
            r.5 == self.body_spec(),
    {
        (self.method, self.uri, self.headers, self.casing, self.attached, self.body)
    }
}

/// The lowest status code of a response.
pub const MIN_STATUS: u16 = 100;

/// The highest status code of a response.
pub const MAX_STATUS: u16 = 599;

/// The status code of a response, always from 100 to 599.
pub struct ResponseStatus {
    code: u16,
}

impl ResponseStatus {
    #[verifier::type_invariant]
    spec fn in_range(self) -> bool {
        MIN_STATUS <= self.code <= MAX_STATUS
    }

    /// The code as a number.
    pub closed spec fn code(&self) -> u16 {
        self.code
    }

    /// The status with this code; `None` exactly where the code is not
    /// from 100 to 599.
    pub fn new(code: u16) -> (r: Option<ResponseStatus>)
        ensures
            r.is_some() == (MIN_STATUS <= code <= MAX_STATUS),
            r matches Some(status) ==> status.code() == code,
    {
        if MIN_STATUS <= code && code <= MAX_STATUS {
            Some(ResponseStatus { code })
        } else {
            None
        }
    }

    /// The code as a number, from 100 to 599.
    pub fn as_u16(&self) -> (r: u16)
        ensures
            r == self.code(),
            MIN_STATUS <= r <= MAX_STATUS,
    {
        proof {
            use_type_invariant(self);
        }
        self.code
    }
}

/// A response as it arrived.
pub struct hyper_response {
    status: ResponseStatus,
    attached: Option<hyper_headers>,
    body: hyper_body,
}

impl hyper_response {
    /// The status code.
    pub closed spec fn status_spec(&self) -> u16 {
        self.status.code()
    }

    /// The headers, if any are attached.
    pub closed spec fn attached(&self) -> Option<hyper_headers> {
        self.attached
    }

    /// The body.
    pub closed spec fn body_spec(&self) -> hyper_body {
        self.body
    }

    /// Wraps a response that arrived: its status, its header values with
    /// the spellings that came with them, if any, and its body. The headers
    /// are attached, ready to be read.
    pub fn wrap(
        status: ResponseStatus,
        headers: HeaderMap<HeaderValue>,
        orig_casing: Option<HeaderCaseMap>,
        body: hyper_body,
    ) -> (r: hyper_response)
        ensures
            r.status_spec() == status.code(),
            r.attached() is Some,
            r.attached()->0.values() == value_groups(headers),
            r.attached()->0.casings() == match orig_casing {
                Some(casing) => casing@,
                None => Seq::<(Seq<u8>, Seq<Seq<u8>>)>::empty(),
            },
            r.body_spec() == body,
    {
        let orig_casing = match orig_casing {
            Some(casing) => casing,
            None => HeaderCaseMap::new(),
        };
        hyper_response { status, attached: Some(hyper_headers::from_parts(headers, orig_casing)), body }
    }

    /// The status code, from 100 to 599.
    pub fn status(&self) -> (r: u16)
        ensures
            r == self.status_spec(),
            MIN_STATUS <= r <= MAX_STATUS,
    {
        self.status.as_u16()
    }

    /// The headers to read or edit; where none are attached, empty ones are
    /// attached first. Nothing else of the response changes.
    pub fn headers(&mut self) -> (r: &mut hyper_headers)
        ensures
            old(self).attached() matches Some(attached) ==> *r == attached,
            old(self).attached() is None ==> {
                &&& r.values() == Seq::<(Seq<u8>, Seq<Seq<u8>>)>::empty()
                &&& r.casings() == Seq::<(Seq<u8>, Seq<Seq<u8>>)>::empty()
            },
            final(self).attached() == Some(*final(r)),
            final(self).status_spec() == old(self).status_spec(),
            final(self).body_spec() == old(self).body_spec(),
    {
        hyper_headers::get_or_default(&mut self.attached)
    }

    /// Hands the body over to the caller and leaves the empty body in its
    /// place. The body handed out no longer depends on the response.
    pub fn take_body(&mut self) -> (r: hyper_body)
        ensures
            r == old(self).body_spec(),
            final(self).body_spec().stream() is None,
            final(self).status_spec() == old(self).status_spec(),
            final(self).attached() == old(self).attached(),
    {
        let mut taken = hyper_body::empty();
        std::mem::swap(&mut self.body, &mut taken);
        taken
    }

    /// The tag of a task that finished with this response.
    pub fn as_task_type(&self) -> (r: hyper_task_return_type)
        ensures
            r == hyper_task_return_type::HYPER_TASK_RESPONSE,
    {
        hyper_task_return_type::HYPER_TASK_RESPONSE
    }
}

} // verus!
