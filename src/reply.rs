use vstd::prelude::*;
use vstd::string::StringSliceAdditionalSpecFns;

verus! {

/// Declares `httparse::Error`, the reason `httparse` rejects a request, so
/// that its parser can be called here; nothing inside it is visible here.
#[verifier::external_type_specification]
#[verifier::external_body]
pub struct ExParseError(httparse::Error);

/// How `httparse` reads `b` as an HTTP request with room for `max_headers`
/// headers: `None` when it is malformed, `Some(None)` when it is a prefix of
/// a request, `Some(Some(n))` when it is whole and its head takes `n` bytes.
pub uninterp spec fn request_parse(b: Seq<u8>, max_headers: usize) -> Option<Option<usize>>;

/// The parts of the response that `http` builds with this status, these
/// headers, in order, and this body: its version text, its status text, its
/// headers as (name, value) bytes in the order it keeps them, and its body;
/// or `None` when it refuses the status or a header.
pub uninterp spec fn built_response(
    status: u16,
    headers: Seq<(Seq<char>, Seq<char>)>,
    body: Seq<char>,
) -> Option<(Seq<u8>, Seq<u8>, Seq<(Seq<u8>, Seq<u8>)>, Seq<u8>)>;

/// Relies on `httparse::Request::parse`, run with `max_headers` header slots.
#[verifier::external_body]
fn parse_request(buf: &[u8], max_headers: usize) -> (r: Result<Option<usize>, httparse::Error>)
    ensures
        match request_parse(buf@, max_headers) {
            None => r is Err,
            Some(s) => r == Ok::<Option<usize>, httparse::Error>(s),
        },
{
    let mut headers = vec![httparse::EMPTY_HEADER; max_headers];
    let mut req = httparse::Request::new(&mut headers);
    match req.parse(buf) {
        Ok(httparse::Status::Complete(n)) => Ok(Some(n)),
        Ok(httparse::Status::Partial) => Ok(None),
        Err(e) => Err(e),
    }
}

/// A response taken apart: version text, status text, header fields and
/// body, each as bytes.
pub struct ResponseParts {
    pub version: Vec<u8>,
    pub status: Vec<u8>,
    pub headers: Vec<(Vec<u8>, Vec<u8>)>,
    pub body: Vec<u8>,
}

impl ResponseParts {
    pub open spec fn view(&self) -> (Seq<u8>, Seq<u8>, Seq<(Seq<u8>, Seq<u8>)>, Seq<u8>) {
        (
            self.version@,
            self.status@,
            self.headers@.map_values(|h: (Vec<u8>, Vec<u8>)| (h.0@, h.1@)),
            self.body@,
        )
    }
}

/// Relies on `http::Response::builder` (with `status`, `header`, `body`) and
/// `Response::into_parts`; hands back the `Debug` text of the version, the
/// `Display` text of the status, and the header names and values as bytes.
#[verifier::external_body]
fn build_response(status: u16, headers: &Vec<(String, String)>, body: &String) -> (r: Option<
    ResponseParts,
>)
    ensures
        match built_response(status, headers@.map_values(|h: (String, String)| (h.0@, h.1@)), body@) {
            None => r is None,
            Some(b) => r matches Some(p) && p.view() == b,
        },
{
    let mut builder = http::Response::builder().status(status);
    for (k, v) in headers.iter() {
        builder = builder.header(k.as_str(), v.as_str());
    }
    let (parts, body) = builder.body(body.clone()).ok()?.into_parts();
    let mut fields = Vec::new();
    for (k, v) in parts.headers.iter() {
        fields.push((k.as_str().as_bytes().to_vec(), v.as_bytes().to_vec()));
    }
    let version = format!("{:?}", parts.version).into_bytes();
    let status = parts.status.to_string().into_bytes();
    Some(ResponseParts { version, status, headers: fields, body: body.into_bytes() })
}

/// The bytes of a space, a colon, a carriage return and a line feed.
pub const SP: u8 = 32;
pub const COLON: u8 = 58;
pub const CR: u8 = 13;
pub const LF: u8 = 10;

/// One `name: value` line per header field, in order.
pub open spec fn header_lines(hs: Seq<(Seq<u8>, Seq<u8>)>) -> Seq<u8>
    decreases hs.len(),
{
    if hs.len() == 0 {
        Seq::empty()
    } else {
        header_lines(hs.drop_last()) + hs.last().0 + seq![COLON, SP] + hs.last().1 + seq![
            CR,
            LF,
        ]
    }
}

/// The wire form of a response: `version status \r\n`, the header lines,
/// an empty line, then the body.
pub open spec fn rendered(p: (Seq<u8>, Seq<u8>, Seq<(Seq<u8>, Seq<u8>)>, Seq<u8>)) -> Seq<u8> {
    p.0 + seq![SP] + p.1 + seq![SP, CR, LF] + header_lines(p.2) + seq![CR, LF]
        + p.3
}

/// Appends the bytes of `b` to `out`.
fn append(out: &mut Vec<u8>, b: &Vec<u8>)
    ensures
        final(out)@ == old(out)@ + b@,
{
    let mut i: usize = 0;
    while i < b.len()
        invariant
            i <= b.len(),
            out@ == old(out)@ + b@.subrange(0, i as int),
        decreases b.len() - i,
    {
        out.push(b[i]);
        i = i + 1;
        proof {
            assert(b@.subrange(0, i as int) =~= b@.subrange(0, i - 1).push(b@[i - 1]));
        }
    }
    proof {
        assert(b@.subrange(0, i as int) =~= b@);
    }
}

/// Writes a response out in wire form.
pub fn render(p: &ResponseParts) -> (r: Vec<u8>)
    ensures
        r@ == rendered(p.view()),
{
    let mut out: Vec<u8> = Vec::new();
    append(&mut out, &p.version);
    out.push(SP);
    append(&mut out, &p.status);
    out.push(SP);
    out.push(CR);
    out.push(LF);
    let ghost hs = p.view().2;
    let mut i: usize = 0;
    while i < p.headers.len()
        invariant
            i <= p.headers.len(),
            hs == p.view().2,
            out@ == p.version@ + seq![SP] + p.status@ + seq![SP, CR, LF]
                + header_lines(hs.subrange(0, i as int)),
        decreases p.headers.len() - i,
    {
        let ghost before = out@;
        append(&mut out, &p.headers[i].0);
        out.push(COLON);
        out.push(SP);
        append(&mut out, &p.headers[i].1);
        out.push(CR);
        out.push(LF);
        proof {
            let sub = hs.subrange(0, i + 1);
            assert(sub.drop_last() =~= hs.subrange(0, i as int));
            assert(sub.last() == hs[i as int]);
            assert(out@ =~= before + sub.last().0 + seq![COLON, SP] + sub.last().1 + seq![
                CR,
                LF,
            ]);
        }
        i = i + 1;
    }
    proof {
        assert(hs.subrange(0, i as int) =~= hs);
    }
    out.push(CR);
    out.push(LF);
    append(&mut out, &p.body);
    proof {
        assert(out@ =~= rendered(p.view()));
    }
    out
}

/// Why a request got no reply of its own.
#[derive(PartialEq, Eq, Structural, Debug, Clone, Copy)]
pub enum RequestError {
    /// The bytes are not an HTTP request.
    Malformed,
    /// The reply could not be rendered.
    Unrenderable,
}

/// The number of header slots a request is parsed with.
pub const MAX_HEADERS: usize = 16;

/// The status of the greeting reply.
pub const GREETING_STATUS: u16 = 200;

/// The headers of the greeting reply.
pub open spec fn greeting_headers() -> Seq<(Seq<char>, Seq<char>)> {
    seq![("Content-Length"@, "4"@), ("Connection"@, "close"@)]
}

/// The body of the greeting reply.
pub open spec fn greeting_body() -> Seq<char> {
    "Damn"@
}

/// The reply owed to a request that parsed as `parsed`, given the rendered
/// greeting `greeting`: an error for malformed bytes, nothing yet for part of
/// a request, the greeting for a whole one.
pub open spec fn reply_spec(parsed: Option<Option<usize>>, greeting: Option<Seq<u8>>) -> Result<
    Seq<u8>,
    RequestError,
> {
    match parsed {
        None => Err(RequestError::Malformed),
        Some(None) => Ok(Seq::empty()),
        Some(Some(_)) => match greeting {
            Some(b) => Ok(b),
            None => Err(RequestError::Unrenderable),
        },
    }
}

/// The wire form of the greeting, given what `http` built for it.
pub open spec fn greeting_of(
    built: Option<(Seq<u8>, Seq<u8>, Seq<(Seq<u8>, Seq<u8>)>, Seq<u8>)>,
) -> Option<Seq<u8>> {
    match built {
        Some(p) => Some(rendered(p)),
        None => None,
    }
}

/// The view of a reply: its bytes, or its error.
pub open spec fn reply_view(r: Result<Vec<u8>, RequestError>) -> Result<Seq<u8>, RequestError> {
    match r {
        Ok(v) => Ok(v@),
        Err(e) => Err(e),
    }
}

/// The reply to a request that parsed as `parsed`, given the rendered
/// greeting `greeting`.
pub fn reply_from(parsed: Option<Option<usize>>, greeting: Option<Vec<u8>>) -> (r: Result<
    Vec<u8>,
    RequestError,
>)
    ensures
        reply_view(r) == reply_spec(
            parsed,
            match greeting {
                Some(v) => Some(v@),
                None => None,
            },
        ),
{
    match parsed {
        None => Err(RequestError::Malformed),
        Some(None) => Ok(Vec::new()),
        Some(Some(_)) => match greeting {
            Some(b) => Ok(b),
            None => Err(RequestError::Unrenderable),
        },
    }
}

/// Answers the bytes `buf` read from a client: the greeting for a whole
/// request, no bytes for part of one, an error for malformed bytes.
pub fn respond(buf: &[u8]) -> (r: Result<Vec<u8>, RequestError>)
    ensures
        reply_view(r) == reply_spec(
            request_parse(buf@, MAX_HEADERS),
            greeting_of(built_response(GREETING_STATUS, greeting_headers(), greeting_body())),
        ),
{
    let parsed = match parse_request(buf, MAX_HEADERS) {
        Ok(s) => Some(s),
        Err(_) => None,
    };
    let greeting = match parsed {
        Some(Some(_)) => {
            let mut headers: Vec<(String, String)> = Vec::new();
            headers.push(("Content-Length".to_owned(), "4".to_owned()));
            headers.push(("Connection".to_owned(), "close".to_owned()));
            let body = "Damn".to_owned();
            proof {
                reveal_strlit("Content-Length");
                reveal_strlit("4");
                reveal_strlit("Connection");
                reveal_strlit("close");
                assert(headers@.map_values(|h: (String, String)| (h.0@, h.1@)) =~= greeting_headers());
            }
            match build_response(GREETING_STATUS, &headers, &body) {
                Some(parts) => Some(render(&parts)),
                None => None,
            }
        },
        _ => None,
    };
    reply_from(parsed, greeting)
}

/// The reply written when a request got none of its own.
pub const FAILURE_RESPONSE: &'static str =
    "HTTP/1.1 500 Internal Server Error\r\nContent-Length: 0\r\nConnection: close\r\n\r\n";

/// The bytes to write back for `r`: the reply itself, or the generic failure
/// response when the request got no reply of its own.
pub fn wire_reply(r: Result<Vec<u8>, RequestError>) -> (out: Vec<u8>)
    ensures
        match r {
            Ok(b) => out@ == b@,
            Err(_) => out@ == FAILURE_RESPONSE.spec_bytes(),
        },
{
    match r {
        Ok(b) => b,
        Err(_) => {
            let bytes = FAILURE_RESPONSE.as_bytes();
            let mut out: Vec<u8> = Vec::new();
            let mut i: usize = 0;
            while i < bytes.len()
                invariant
                    i <= bytes@.len(),
                    bytes@ == FAILURE_RESPONSE.spec_bytes(),
                    out@ == bytes@.subrange(0, i as int),
                decreases bytes.len() - i,
            {
                out.push(bytes[i]);
                i = i + 1;
                proof {
                    assert(bytes@.subrange(0, i as int) =~= bytes@.subrange(0, i - 1).push(
                        bytes@[i - 1],
                    ));
                }
            }
            proof {
                assert(bytes@.subrange(0, i as int) =~= bytes@);
            }
            out
        },
    }
}

} // verus!
