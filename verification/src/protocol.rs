//! Rendering of errors and outputs as wire responses, one way per protocol.
//!
//! The taxonomy of errors is shared by all protocols; what a protocol writes
//! for an error is its own. A response is a status code, an ordered list of
//! headers, a body, and a bag of metadata that is not written to the wire.

use vstd::prelude::*;
use vstd::string::*;

use crate::extension::{ExtensionKey, Extensions};
use crate::method::Method;
use crate::runtime_error::{RuntimeError, RuntimeErrorSpec};
use crate::template::{CLOSE_BRACE, OPEN_BRACE};

verus! {

/// A wire protocol.
#[derive(Clone, Copy, Debug, PartialEq, Eq, Structural)]
pub enum Protocol {
    /// REST with JSON bodies.
    RestJson1,
    /// REST with XML bodies.
    RestXml,
    /// RPC over JSON, version 1.0.
    AwsJson10,
    /// RPC over JSON, version 1.1.
    AwsJson11,
}

/// One header of a response.
#[derive(Clone, Debug, PartialEq, Eq)]
pub struct Header {
    pub name: String,
    pub value: String,
}

impl View for Header {
    type V = (Seq<char>, Seq<char>);

    open spec fn view(&self) -> (Seq<char>, Seq<char>) {
        (self.name@, self.value@)
    }
}

/// The models of a vector of headers.
pub open spec fn headers_view(v: Seq<Header>) -> Seq<(Seq<char>, Seq<char>)> {
    Seq::new(v.len(), |i: int| v[i]@)
}

/// A response, ready to be written to the wire.
#[derive(Clone, Debug, PartialEq, Eq)]
pub struct WireResponse {
    pub status: u16,
    pub headers: Vec<Header>,
    pub body: Vec<u8>,
    pub extensions: Extensions,
}

/// Mathematical model of [`WireResponse`].
pub ghost struct WireResponseSpec {
    pub status: int,
    pub headers: Seq<(Seq<char>, Seq<char>)>,
    pub body: Seq<u8>,
    pub extensions: Seq<(ExtensionKey, Seq<char>)>,
}

impl View for WireResponse {
    type V = WireResponseSpec;

    open spec fn view(&self) -> WireResponseSpec {
        WireResponseSpec {
            status: self.status as int,
            headers: headers_view(self.headers@),
            body: self.body@,
            extensions: self.extensions@,
        }
    }
}

impl WireResponseSpec {
    /// What is written to the wire: everything but the metadata.
    pub open spec fn wire(self) -> (int, Seq<(Seq<char>, Seq<char>)>, Seq<u8>) {
        (self.status, self.headers, self.body)
    }

    /// The response with its metadata taken away.
    pub open spec fn without_extensions(self) -> WireResponseSpec {
        WireResponseSpec { extensions: Seq::empty(), ..self }
    }
}

/// Taking the metadata away changes nothing of what is written to the wire.
pub proof fn lemma_extensions_off_the_wire(response: WireResponseSpec)
    ensures
        response.without_extensions().wire() == response.wire(),
{
}

/// The name of the header that carries the content type.
pub open spec fn content_type_name() -> Seq<char> {
    "Content-Type"@
}

/// The name of the header that carries the error-type identifier.
pub open spec fn error_type_name() -> Seq<char> {
    "X-Amzn-Errortype"@
}

/// The name of the header that lists the allowed methods.
pub open spec fn allow_name() -> Seq<char> {
    "Allow"@
}

impl Protocol {
    /// The content type of the protocol's bodies.
    pub open spec fn content_type(self) -> Seq<char> {
        match self {
            Protocol::RestJson1 => "application/json"@,
            Protocol::RestXml => "application/xml"@,
            Protocol::AwsJson10 => "application/x-amz-json-1.0"@,
            Protocol::AwsJson11 => "application/x-amz-json-1.1"@,
        }
    }

    /// The body that the protocol writes for an error of the runtime: an
    /// empty JSON object, or nothing where bodies are XML.
    pub open spec fn error_body(self) -> Seq<u8> {
        match self {
            Protocol::RestXml => Seq::<u8>::empty(),
            _ => seq![OPEN_BRACE, CLOSE_BRACE],
        }
    }

    /// The content type of the protocol's bodies.
    pub fn content_type_str(&self) -> (text: &'static str)
        ensures
            text@ == self.content_type(),
    {
        match self {
            Protocol::RestJson1 => "application/json",
            Protocol::RestXml => "application/xml",
            Protocol::AwsJson10 => "application/x-amz-json-1.0",
            Protocol::AwsJson11 => "application/x-amz-json-1.1",
        }
    }

    /// The body that the protocol writes for an error of the runtime.
    pub fn error_body_bytes(&self) -> (body: Vec<u8>)
        ensures
            body@ == self.error_body(),
    {
        let mut body: Vec<u8> = Vec::new();
        match self {
            Protocol::RestXml => {},
            _ => {
                body.push(OPEN_BRACE);
                body.push(CLOSE_BRACE);
            },
        }
        assert(body@ =~= self.error_body());
        body
    }

    /// Renders the successful output of an operation: status 200, the
    /// protocol's content type, and the body as it was serialized.
    pub fn render_output(&self, body: Vec<u8>) -> (response: WireResponse)
        ensures
            response@ == (WireResponseSpec {
                status: 200,
                headers: seq![(content_type_name(), self.content_type())],
                body: body@,
                extensions: Seq::empty(),
            }),
    {
        let mut headers: Vec<Header> = Vec::new();
        headers.push(
            Header {
                name: String::from_str("Content-Type"),
                value: String::from_str(self.content_type_str()),
            },
        );
        let response = WireResponse { status: 200, headers, body, extensions: Extensions::new() };
        assert(response@.headers =~= seq![(content_type_name(), self.content_type())]);
        response
    }
}

/// The status code that an error is answered with.
pub open spec fn status_of(error: RuntimeErrorSpec) -> int {
    match error {
        RuntimeErrorSpec::RouteNotFound => 404,
        RuntimeErrorSpec::MethodNotAllowed { .. } => 405,
        RuntimeErrorSpec::MissingContentType => 415,
        RuntimeErrorSpec::UnsupportedMediaType => 415,
        RuntimeErrorSpec::DeserializeError(_) => 400,
        RuntimeErrorSpec::SerializeError(_) => 500,
        RuntimeErrorSpec::InternalFailure => 500,
    }
}

/// The error-type identifier that an error is reported under. A method that
/// is not allowed has none: it is answered by the `Allow` header.
pub open spec fn error_type_of(error: RuntimeErrorSpec) -> Option<Seq<char>> {
    match error {
        RuntimeErrorSpec::RouteNotFound => Some("UnknownOperationException"@),
        RuntimeErrorSpec::MethodNotAllowed { .. } => None,
        RuntimeErrorSpec::MissingContentType => Some("UnsupportedMediaTypeException"@),
        RuntimeErrorSpec::UnsupportedMediaType => Some("UnsupportedMediaTypeException"@),
        RuntimeErrorSpec::DeserializeError(_) => Some("SerializationException"@),
        RuntimeErrorSpec::SerializeError(_) => Some("InternalFailureException"@),
        RuntimeErrorSpec::InternalFailure => Some("InternalFailureException"@),
    }
}

/// The value of the `Allow` header: the methods' names, separated by a
/// comma and a space.
pub open spec fn allow_value(methods: Seq<Method>) -> Seq<char>
    decreases methods.len(),
{
    if methods.len() == 0 {
        Seq::<char>::empty()
    } else if methods.len() == 1 {
        methods[0].name()
    } else {
        allow_value(methods.drop_last()) + ", "@ + methods.last().name()
    }
}

/// The response that `protocol` gives for `error`.
///
/// A method that is not allowed is answered, in every protocol, by status
/// 405, the `Allow` header and an empty body. Every other error is answered
/// by its status, the protocol's content type, the error-type header, the
/// protocol's error body, and the error type again as metadata.
pub open spec fn rendered(protocol: Protocol, error: RuntimeErrorSpec) -> WireResponseSpec {
    match error_type_of(error) {
        None => WireResponseSpec {
            status: status_of(error),
            headers: seq![(allow_name(), allow_value(error->allowed))],
            body: Seq::empty(),
            extensions: Seq::empty(),
        },
        Some(error_type) => WireResponseSpec {
            status: status_of(error),
            headers: seq![
                (content_type_name(), protocol.content_type()),
                (error_type_name(), error_type),
            ],
            body: protocol.error_body(),
            extensions: seq![(ExtensionKey::RuntimeErrorType, error_type)],
        },
    }
}

/// The value of the `Allow` header for `methods`.
pub fn allow_header_value(methods: &Vec<Method>) -> (value: String)
    ensures
        value@ == allow_value(methods@),
{
    let mut value = String::new();
    let mut i: usize = 0;
    assert(methods@.take(0) =~= Seq::<Method>::empty());
    while i < methods.len()
        invariant
            i <= methods.len(),
            value@ == allow_value(methods@.take(i as int)),
        decreases methods.len() - i,
    {
        let ghost done = methods@.take(i as int);
        let ghost next = methods@.take(i + 1);
        assert(next.drop_last() =~= done);
        assert(next.last() == methods@[i as int]);
        if i > 0 {
            value.append(", ");
        }
        value.append(methods[i].as_str());
        if i == 0 {
            assert(value@ =~= next[0].name());
        }
        i += 1;
    }
    assert(methods@.take(methods.len() as int) =~= methods@);
    value
}

impl RuntimeError {
    /// The status code that the error is answered with.
    pub fn status(&self) -> (code: u16)
        ensures
            code == status_of(self@),
    {
        match self {
            RuntimeError::RouteNotFound => 404,
            RuntimeError::MethodNotAllowed { .. } => 405,
            RuntimeError::MissingContentType => 415,
            RuntimeError::UnsupportedMediaType => 415,
            RuntimeError::DeserializeError(_) => 400,
            RuntimeError::SerializeError(_) => 500,
            RuntimeError::InternalFailure => 500,
        }
    }

    /// The error-type identifier that the error is reported under.
    pub fn error_type(&self) -> (name: Option<&'static str>)
        ensures
            match name {
                Some(text) => error_type_of(self@) == Some(text@),
                None => error_type_of(self@) is None,
            },
    {
        match self {
            RuntimeError::RouteNotFound => Some("UnknownOperationException"),
            RuntimeError::MethodNotAllowed { .. } => None,
            RuntimeError::MissingContentType => Some("UnsupportedMediaTypeException"),
            RuntimeError::UnsupportedMediaType => Some("UnsupportedMediaTypeException"),
            RuntimeError::DeserializeError(_) => Some("SerializationException"),
            RuntimeError::SerializeError(_) => Some("InternalFailureException"),
            RuntimeError::InternalFailure => Some("InternalFailureException"),
        }
    }

    /// Renders the error as `protocol` writes it.
    pub fn into_response(self, protocol: Protocol) -> (response: WireResponse)
        ensures
            response@ == rendered(protocol, self@),
    {
        let status = self.status();
        let mut headers: Vec<Header> = Vec::new();
        let mut extensions = Extensions::new();
        match self.error_type() {
            None => {
                let value = match &self {
                    RuntimeError::MethodNotAllowed { allowed } => allow_header_value(allowed),
                    _ => String::new(),
                };
                headers.push(Header { name: String::from_str("Allow"), value });
                let response = WireResponse { status, headers, body: Vec::new(), extensions };
                assert(response@.headers =~= seq![(allow_name(), allow_value(self@->allowed))]);
                assert(response@.body =~= Seq::<u8>::empty());
                response
            },
            Some(error_type) => {
                headers.push(
                    Header {
                        name: String::from_str("Content-Type"),
                        value: String::from_str(protocol.content_type_str()),
                    },
                );
                headers.push(
                    Header {
                        name: String::from_str("X-Amzn-Errortype"),
                        value: String::from_str(error_type),
                    },
                );
                extensions.insert(ExtensionKey::RuntimeErrorType, String::from_str(error_type));
                let response = WireResponse {
                    status,
                    headers,
                    body: protocol.error_body_bytes(),
                    extensions,
                };
                assert(response@.headers =~= seq![
                    (content_type_name(), protocol.content_type()),
                    (error_type_name(), error_type@),
                ]);
                assert(response@.extensions =~= seq![(ExtensionKey::RuntimeErrorType, error_type@)]);
                response
            },
        }
    }
}

/// The lower-case form of an ASCII letter; any other byte is left alone.
pub open spec fn ascii_lower(byte: u8) -> u8 {
    if 0x41 <= byte <= 0x5a {
        (byte + 0x20) as u8
    } else {
        byte
    }
}

/// Whether two byte strings are equal but for the case of ASCII letters.
pub open spec fn same_ignoring_case(a: Seq<u8>, b: Seq<u8>) -> bool {
    &&& a.len() == b.len()
    &&& forall|i: int| 0 <= i < a.len() ==> ascii_lower(#[trigger] a[i]) == ascii_lower(b[i])
}

/// Whether two byte strings are equal but for the case of ASCII letters.
pub fn eq_ignoring_case(a: &[u8], b: &[u8]) -> (same: bool)
    ensures
        same == same_ignoring_case(a@, b@),
{
    if a.len() != b.len() {
        return false;
    }
    let mut i: usize = 0;
    while i < a.len()
        invariant
            i <= a.len(),
            a.len() == b.len(),
            forall|j: int| 0 <= j < i ==> ascii_lower(#[trigger] a@[j]) == ascii_lower(b@[j]),
        decreases a.len() - i,
    {
        let x: u8 = if 0x41 <= a[i] && a[i] <= 0x5a {
            a[i] + 0x20
        } else {
            a[i]
        };
        let y: u8 = if 0x41 <= b[i] && b[i] <= 0x5a {
            b[i] + 0x20
        } else {
            b[i]
        };
        if x != y {
            return false;
        }
        i += 1;
    }
    true
}

/// The position of the first header whose name is `name` but for the case
/// of ASCII letters, among the first `k` headers; names are compared as
/// UTF-8 bytes.
pub open spec fn first_header(headers: Seq<(Seq<char>, Seq<char>)>, name: Seq<u8>, k: nat) -> Option<
    int,
>
    decreases k,
{
    if k == 0 {
        None
    } else {
        match first_header(headers, name, (k - 1) as nat) {
            Some(at) => Some(at),
            None => if same_ignoring_case(vstd::utf8::encode_utf8(headers[k - 1].0), name) {
                Some(k - 1)
            } else {
                None
            },
        }
    }
}

impl WireResponse {
    /// The value of the first header named `name`. Header names are
    /// compared without regard to the case of ASCII letters.
    pub fn header(&self, name: &str) -> (value: Option<&str>)
        ensures
            match first_header(self@.headers, name.spec_bytes(), self@.headers.len()) {
                Some(at) => 0 <= at < self@.headers.len() && value is Some && value->0@
                    == self@.headers[at].1,
                None => value is None,
            },
    {
        let ghost model = self@.headers;
        let wanted = name.as_bytes();
        let mut i: usize = 0;
        while i < self.headers.len()
            invariant
                i <= self.headers.len(),
                model == headers_view(self.headers@),
                wanted@ == name.spec_bytes(),
                first_header(model, wanted@, i as nat) is None,
            decreases self.headers.len() - i,
        {
            assert(model[i as int] == self.headers@[i as int]@);
            assert(((i + 1) as nat - 1) as nat == i as nat);
            let found = eq_ignoring_case(self.headers[i].name.as_str().as_bytes(), wanted);
            if found {
                proof {
                    lemma_first_header_stays(model, wanted@, (i + 1) as nat, model.len());
                }
                return Some(self.headers[i].value.as_str());
            }
            i += 1;
        }
        None
    }
}

/// Once a header is found, reading further headers finds the same one.
pub proof fn lemma_first_header_stays(
    headers: Seq<(Seq<char>, Seq<char>)>,
    name: Seq<u8>,
    k: nat,
    n: nat,
)
    requires
        k <= n,
        first_header(headers, name, k) is Some,
    ensures
        first_header(headers, name, n) == first_header(headers, name, k),
    decreases n - k,
{
    if k < n {
        lemma_first_header_stays(headers, name, k, (n - 1) as nat);
    }
}

} // verus!
