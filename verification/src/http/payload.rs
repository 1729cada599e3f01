//! Request and response payloads.

use vstd::prelude::*;

verus! {

/// An HTTP request, borrowing the connection buffer it was parsed from.
#[derive(Debug)]
pub struct Request<'a> {
    /// The request method.
    pub method: Method,
    /// The path part of the request target.
    pub path: &'a [u8],
    /// The query part of the request target, without the question mark.
    pub query: &'a [u8],
    /// Header names and values, in wire order.
    pub headers: Vec<(&'a str, &'a [u8])>,
    /// The body bytes.
    pub body: &'a [u8],
}

/// An HTTP response, borrowing the handler data it was built from.
#[derive(Debug)]
pub struct Response<'a> {
    /// The response status.
    pub status: StatusCode,
    /// Header names and values, in wire order.
    pub headers: Vec<(&'a str, &'a [u8])>,
    /// The body bytes.
    pub body: &'a [u8],
}

/// Values that can pose as a whole request, for handlers under test.
pub trait AsRequest {
    /// A request with this value as the body and no headers.
    fn as_request<'a>(&'a self, method: Method, path: &'a [u8], query: &'a [u8]) -> Request<'a>;
}

impl<B: AsBody> AsRequest for B {
    fn as_request<'a>(&'a self, method: Method, path: &'a [u8], query: &'a [u8]) -> Request<'a> {
        Request { method, path, query, headers: Vec::new(), body: self.contents() }
    }
}

/// Values that can pose as a whole response.
pub trait AsResponse {
    /// The response this value stands for.
    fn as_response(&self) -> Response<'_>;
}

impl AsResponse for StatusCode {
    /// A bare status with no headers and an empty body.
    fn as_response(&self) -> Response<'_> {
        Response { status: *self, headers: Vec::new(), body: &[] }
    }
}

impl<B: AsBody> AsResponse for B {
    /// An OK response carrying this value as its body, with its content
    /// type when it names one.
    fn as_response(&self) -> Response<'_> {
        let mut headers: Vec<(&str, &[u8])> = Vec::new();
        match self.content_type() {
            Some(content_type) => {
                headers.push(("content-type", content_type.as_bytes()));
            },
            None => {},
        }
        Response { status: StatusCode::Okay, headers, body: self.contents() }
    }
}

/// The request methods the server understands.
#[derive(Debug, Copy, Clone, PartialEq, Eq, Structural)]
pub enum Method {
    /// Retrieve data at the target resource.
    Get,
    /// Submit data to the target resource.
    Post,
    /// Like GET, but without the response body.
    Head,
    /// Replace the target resource.
    Put,
    /// Delete the target resource.
    Delete,
    /// Establish a tunnel to the server named by the target resource.
    Connect,
    /// Describe the endpoints the server supports.
    Options,
    /// Message loop-back test along the path to the target resource.
    Trace,
    /// Partially update a resource.
    Patch,
}

impl Method {
    /// The wire name of each method.
    pub open spec fn name_spec(&self) -> Seq<u8> {
        match *self {
            Method::Get => seq![0x47u8, 0x45u8, 0x54u8],
            Method::Post => seq![0x50u8, 0x4fu8, 0x53u8, 0x54u8],
            Method::Head => seq![0x48u8, 0x45u8, 0x41u8, 0x44u8],
            Method::Put => seq![0x50u8, 0x55u8, 0x54u8],
            Method::Delete => seq![0x44u8, 0x45u8, 0x4cu8, 0x45u8, 0x54u8, 0x45u8],
            Method::Connect => seq![0x43u8, 0x4fu8, 0x4eu8, 0x4eu8, 0x45u8, 0x43u8, 0x54u8],
            Method::Options => seq![0x4fu8, 0x50u8, 0x54u8, 0x49u8, 0x4fu8, 0x4eu8, 0x53u8],
            Method::Trace => seq![0x54u8, 0x52u8, 0x41u8, 0x43u8, 0x45u8],
            Method::Patch => seq![0x50u8, 0x41u8, 0x54u8, 0x43u8, 0x48u8],
        }
    }

    /// Parse a method from its wire name: exactly the nine upper-case names
    /// are accepted.
    pub fn from_name(name: &[u8]) -> (r: Result<Method, ()>)
        ensures
            forall|m: Method| name@ == m.name_spec() ==> r == Result::<Method, ()>::Ok(m),
            (forall|m: Method| name@ != m.name_spec()) ==> r == Result::<Method, ()>::Err(()),
    {
        let candidates: [Method; 9] = [
            Method::Get,
            Method::Post,
            Method::Head,
            Method::Put,
            Method::Delete,
            Method::Connect,
            Method::Options,
            Method::Trace,
            Method::Patch,
        ];
        let mut i: usize = 0;
        while i < 9
            invariant
                i <= 9,
                candidates@.len() == 9,
                forall|j: int| 0 <= j < i ==> name@ != candidates@[j].name_spec(),
                candidates@[0] == Method::Get,
                candidates@[1] == Method::Post,
                candidates@[2] == Method::Head,
                candidates@[3] == Method::Put,
                candidates@[4] == Method::Delete,
                candidates@[5] == Method::Connect,
                candidates@[6] == Method::Options,
                candidates@[7] == Method::Trace,
                candidates@[8] == Method::Patch,
            decreases 9 - i,
        {
            let m = candidates[i];
            if Self::name_matches(m, name) {
                return Ok(m);
            }
            i = i + 1;
        }
        proof {
            assert forall|m: Method| name@ != m.name_spec() by {
                assert(exists|j: int| 0 <= j < 9 && candidates@[j] == m) by {
                    match m {
                        Method::Get => assert(candidates@[0] == m),
                        Method::Post => assert(candidates@[1] == m),
                        Method::Head => assert(candidates@[2] == m),
                        Method::Put => assert(candidates@[3] == m),
                        Method::Delete => assert(candidates@[4] == m),
                        Method::Connect => assert(candidates@[5] == m),
                        Method::Options => assert(candidates@[6] == m),
                        Method::Trace => assert(candidates@[7] == m),
                        Method::Patch => assert(candidates@[8] == m),
                    }
                }
            }
        }
        Err(())
    }

    /// Compare a wire name against one method's name.
    fn name_matches(m: Method, name: &[u8]) -> (r: bool)
        ensures
            r == (name@ == m.name_spec()),
    {
        let expected: &[u8] = match m {
            Method::Get => &[0x47, 0x45, 0x54],
            Method::Post => &[0x50, 0x4f, 0x53, 0x54],
            Method::Head => &[0x48, 0x45, 0x41, 0x44],
            Method::Put => &[0x50, 0x55, 0x54],
            Method::Delete => &[0x44, 0x45, 0x4c, 0x45, 0x54, 0x45],
            Method::Connect => &[0x43, 0x4f, 0x4e, 0x4e, 0x45, 0x43, 0x54],
            Method::Options => &[0x4f, 0x50, 0x54, 0x49, 0x4f, 0x4e, 0x53],
            Method::Trace => &[0x54, 0x52, 0x41, 0x43, 0x45],
            Method::Patch => &[0x50, 0x41, 0x54, 0x43, 0x48],
        };
        proof {
            assert(expected@ =~= m.name_spec());
        }
        bytes_eq(name, expected)
    }
}

/// Whether two byte strings hold the same bytes.
pub fn bytes_eq(a: &[u8], b: &[u8]) -> (r: bool)
    ensures
        r == (a@ == b@),
{
    if a.len() != b.len() {
        return false;
    }
    let mut i: usize = 0;
    while i < a.len()
        invariant
            a@.len() == b@.len(),
            i <= a@.len(),
            forall|j: int| 0 <= j < i ==> a@[j] == b@[j],
        decreases a@.len() - i,
    {
        if a[i] != b[i] {
            return false;
        }
        i = i + 1;
    }
    proof {
        assert(a@ =~= b@);
    }
    true
}

/// The response statuses the server can produce.
#[derive(Debug, Copy, Clone, PartialEq, Eq, Structural)]
pub enum StatusCode {
    /// The request succeeded (200).
    Okay,
    /// The request was accepted for later processing.
    Accepted,
    /// The cached representation is still fresh.
    NotModified,
    /// The resource currently lives under a different target.
    TemporaryRedirect,
    /// The request was malformed.
    BadRequest,
    /// The request lacks valid credentials.
    Unauthorized,
    /// The credentials do not allow this request.
    Forbidden,
    /// The resource does not exist.
    NotFound,
    /// The resource exists but not under this method.
    MethodNotAllowed,
}

impl StatusCode {
    /// The numeric code each status goes on the wire as.
    pub open spec fn code_spec(&self) -> u16 {
        match *self {
            StatusCode::Okay => 200,
            StatusCode::Accepted => 202,
            StatusCode::NotModified => 304,
            StatusCode::TemporaryRedirect => 307,
            StatusCode::BadRequest => 400,
            StatusCode::Unauthorized => 401,
            StatusCode::Forbidden => 403,
            StatusCode::NotFound => 404,
            StatusCode::MethodNotAllowed => 405,
        }
    }
}

impl From<StatusCode> for u16 {
    /// The numeric code of the status.
    fn from(status: StatusCode) -> (code: u16)
        ensures
            code == status.code_spec(),
    {
        match status {
            StatusCode::Okay => 200,
            StatusCode::Accepted => 202,
            StatusCode::NotModified => 304,
            StatusCode::TemporaryRedirect => 307,
            StatusCode::BadRequest => 400,
            StatusCode::Unauthorized => 401,
            StatusCode::Forbidden => 403,
            StatusCode::NotFound => 404,
            StatusCode::MethodNotAllowed => 405,
        }
    }
}

impl vstd::std_specs::convert::FromSpecImpl<StatusCode> for u16 {
    open spec fn obeys_from_spec() -> bool {
        true
    }

    open spec fn from_spec(status: StatusCode) -> u16 {
        status.code_spec()
    }
}

/// Values that can pose as a request or response body.
pub trait AsBody {
    /// The body bytes.
    fn contents(&self) -> &[u8];

    /// The content type to announce, if any.
    fn content_type(&self) -> Option<&str>;
}

impl AsBody for () {
    /// An empty body.
    fn contents(&self) -> &[u8] {
        &[]
    }

    /// No content type.
    fn content_type(&self) -> Option<&str> {
        None
    }
}

impl AsBody for &str {
    /// The text itself.
    fn contents(&self) -> &[u8] {
        self.as_bytes()
    }

    /// Plain text.
    fn content_type(&self) -> Option<&str> {
        Some("text/plain")
    }
}

impl AsBody for &[u8] {
    /// The bytes themselves.
    fn contents(&self) -> &[u8] {
        self
    }

    /// Opaque bytes.
    fn content_type(&self) -> Option<&str> {
        Some("application/octet-stream")
    }
}

} // verus!
