//! Minimal HTTP/1.1 codec: parses a raw request buffer into a method and a
//! target, and serializes responses into wire bytes. Pure byte manipulation,
//! no I/O.
use crate::bytes::{
    contains_pat, copy_bytes, dec_bytes, dec_u64, eq_bytes, find_pattern, first_pat, matches_at,
    push_bytes, push_str, CR, LF, QMARK, SLASH, SP,
};
use vstd::prelude::*;
use vstd::string::StringSliceAdditionalSpecFns;

verus! {

/// The CRLF line ending.
pub open spec fn crlf_pat() -> Seq<u8> {
    seq![CR, LF]
}

/// The 4-byte header terminator that ends an HTTP request's header block.
pub open spec fn terminator_pat() -> Seq<u8> {
    seq![CR, LF, CR, LF]
}

/// A single space, the request-line field separator.
pub open spec fn sp_pat() -> Seq<u8> {
    seq![SP]
}

/// A single `?`, the start of a query suffix.
pub open spec fn qmark_pat() -> Seq<u8> {
    seq![QMARK]
}

/// A CRLF pair as an owned vector.
pub fn crlf_vec() -> (r: Vec<u8>)
    ensures
        r@ == crlf_pat(),
{
    let mut v: Vec<u8> = Vec::new();
    v.push(CR);
    v.push(LF);
    proof {
        assert(v@ =~= crlf_pat());
    }
    v
}

/// The 4-byte header terminator as an owned vector.
pub fn terminator_vec() -> (r: Vec<u8>)
    ensures
        r@ == terminator_pat(),
{
    let mut v: Vec<u8> = Vec::new();
    v.push(CR);
    v.push(LF);
    v.push(CR);
    v.push(LF);
    proof {
        assert(v@ =~= terminator_pat());
    }
    v
}

/// A one-byte pattern as an owned vector.
pub fn byte_vec(b: u8) -> (r: Vec<u8>)
    ensures
        r@ == seq![b],
{
    let mut v: Vec<u8> = Vec::new();
    v.push(b);
    proof {
        assert(v@ =~= seq![b]);
    }
    v
}

/// A request method: `GET`, `HEAD`, or any other token, kept verbatim.
#[derive(Debug)]
pub enum Method {
    Get,
    Head,
    Other(Vec<u8>),
}

/// A parsed request line: the method and the target with any `?query` suffix
/// already stripped. The target always starts with `/`.
#[derive(Debug)]
pub struct Request {
    pub method: Method,
    pub target: Vec<u8>,
}

/// Why a request buffer failed to parse; each case maps to a 400 response.
#[derive(Clone, Copy, PartialEq, Eq, Structural, Debug)]
pub enum ParseError {
    MissingRequestLine,
    MissingTarget,
    MissingVersion,
    TargetNotUtf8,
    TargetNotAbsolute,
}

/// The plain-text message carried in the 400 response body for `e`.
pub open spec fn message_bytes(e: ParseError) -> Seq<u8> {
    match e {
        ParseError::MissingRequestLine => "missing request line".spec_bytes(),
        ParseError::MissingTarget => "missing target".spec_bytes(),
        ParseError::MissingVersion => "missing version".spec_bytes(),
        ParseError::TargetNotUtf8 => "target is not utf-8".spec_bytes(),
        ParseError::TargetNotAbsolute => "target must start with /".spec_bytes(),
    }
}

impl ParseError {
    /// The human-readable message for this parse failure.
    pub fn message(&self) -> (r: &'static str)
        ensures
            r.spec_bytes() == message_bytes(*self),
    {
        match self {
            ParseError::MissingRequestLine => "missing request line",
            ParseError::MissingTarget => "missing target",
            ParseError::MissingVersion => "missing version",
            ParseError::TargetNotUtf8 => "target is not utf-8",
            ParseError::TargetNotAbsolute => "target must start with /",
        }
    }
}

/// Whether a byte sequence is valid UTF-8; a property of the bytes alone.
pub uninterp spec fn utf8_valid(b: Seq<u8>) -> bool;

/// Relies on std's `str::from_utf8`: it returns `Ok` exactly when the bytes
/// are valid UTF-8, which depends on the bytes alone.
#[verifier::external_body]
fn utf8_check(b: &[u8]) -> (r: bool)
    ensures
        r == utf8_valid(b@),
{
    core::str::from_utf8(b).is_ok()
}

/// What parsing a raw buffer yields: the method token and the cleaned target,
/// or the parse failure. The first CRLF ends the request line; the line splits
/// on single spaces into method, target and version; the version is read but
/// never validated; the target must decode as UTF-8, loses everything from the
/// first `?` on, and must start with `/`.
pub open spec fn spec_parse(buf: Seq<u8>) -> Result<(Seq<u8>, Seq<u8>), ParseError> {
    if !contains_pat(buf, crlf_pat()) {
        Err(ParseError::MissingRequestLine)
    } else {
        let line = buf.take(first_pat(buf, crlf_pat()));
        if !contains_pat(line, sp_pat()) {
            Err(ParseError::MissingTarget)
        } else {
            let i = first_pat(line, sp_pat());
            let method = line.take(i);
            let rest = line.subrange(i + 1, line.len() as int);
            if !contains_pat(rest, sp_pat()) {
                Err(ParseError::MissingVersion)
            } else {
                let raw = rest.take(first_pat(rest, sp_pat()));
                if !utf8_valid(raw) {
                    Err(ParseError::TargetNotUtf8)
                } else {
                    let t = raw.take(first_pat(raw, qmark_pat()));
                    if t.len() == 0 || t[0] != SLASH {
                        Err(ParseError::TargetNotAbsolute)
                    } else {
                        Ok((method, t))
                    }
                }
            }
        }
    }
}

/// The executable method value carries exactly the parsed token: `Get` and
/// `Head` stand for their tokens, and `Other` keeps any other token verbatim.
pub open spec fn method_matches(m: Method, tok: Seq<u8>) -> bool {
    match m {
        Method::Get => tok == "GET".spec_bytes(),
        Method::Head => tok == "HEAD".spec_bytes(),
        Method::Other(v) => v@ == tok && tok != "GET".spec_bytes() && tok != "HEAD".spec_bytes(),
    }
}

/// Parses a raw request buffer into a structured request, exactly as
/// `spec_parse` describes.
pub fn parse_request(buf: &[u8]) -> (r: Result<Request, ParseError>)
    ensures
        r is Ok <==> spec_parse(buf@) is Ok,
        r matches Ok(req) ==> method_matches(req.method, spec_parse(buf@)->Ok_0.0)
            && req.target@ == spec_parse(buf@)->Ok_0.1,
        r matches Err(e) ==> spec_parse(buf@) == Err::<(Seq<u8>, Seq<u8>), ParseError>(e),
{
    let crlf = crlf_vec();
    let le = match find_pattern(buf, crlf.as_slice()) {
        None => {
            return Err(ParseError::MissingRequestLine);
        },
        Some(i) => i,
    };
    let line: &[u8] = &buf[0..le];
    proof {
        assert(line@ =~= buf@.take(first_pat(buf@, crlf_pat())));
    }
    let spv = byte_vec(SP);
    let i1 = match find_pattern(line, spv.as_slice()) {
        None => {
            return Err(ParseError::MissingTarget);
        },
        Some(i) => i,
    };
    let method_bytes: &[u8] = &line[0..i1];
    let rest: &[u8] = &line[i1 + 1..line.len()];
    proof {
        assert(method_bytes@ =~= line@.take(i1 as int));
        assert(rest@ =~= line@.subrange(i1 + 1, line@.len() as int));
    }
    let j = match find_pattern(rest, spv.as_slice()) {
        None => {
            return Err(ParseError::MissingVersion);
        },
        Some(j) => j,
    };
    let raw: &[u8] = &rest[0..j];
    proof {
        assert(raw@ =~= rest@.take(first_pat(rest@, sp_pat())));
    }
    if !utf8_check(raw) {
        return Err(ParseError::TargetNotUtf8);
    }
    let qv = byte_vec(QMARK);
    let tlen = match find_pattern(raw, qv.as_slice()) {
        Some(k) => k,
        None => raw.len(),
    };
    let tgt: &[u8] = &raw[0..tlen];
    proof {
        assert(tgt@ =~= raw@.take(first_pat(raw@, qmark_pat())));
    }
    if tgt.len() == 0 || tgt[0] != SLASH {
        return Err(ParseError::TargetNotAbsolute);
    }
    let method = if eq_bytes(method_bytes, "GET".as_bytes()) {
        Method::Get
    } else if eq_bytes(method_bytes, "HEAD".as_bytes()) {
        Method::Head
    } else {
        Method::Other(copy_bytes(method_bytes))
    };
    Ok(Request { method, target: copy_bytes(tgt) })
}

/// One extra header line, `name: value` followed by CRLF.
pub open spec fn header_line(name: Seq<u8>, value: Seq<u8>) -> Seq<u8> {
    name + ": ".spec_bytes() + value + "\r\n".spec_bytes()
}

/// The extra header lines, in given order.
pub open spec fn header_lines(hs: Seq<(Seq<u8>, Seq<u8>)>) -> Seq<u8>
    decreases hs.len(),
{
    if hs.len() == 0 {
        Seq::empty()
    } else {
        header_lines(hs.drop_last()) + header_line(hs.last().0, hs.last().1)
    }
}

/// The status line: `HTTP/1.1 <code> <reason>` and CRLF.
pub open spec fn status_line(code: u16, reason: Seq<u8>) -> Seq<u8> {
    "HTTP/1.1 ".spec_bytes() + dec_bytes(code as nat) + " ".spec_bytes() + reason
        + "\r\n".spec_bytes()
}

/// The fixed leading headers: status line, `Content-Type`, `Content-Length`
/// (the declared length, which for HEAD exceeds the empty body), and the
/// unconditional `Connection: close`.
pub open spec fn base_block(code: u16, reason: Seq<u8>, declared_len: nat, ctype: Seq<u8>) -> Seq<
    u8,
> {
    status_line(code, reason) + "Content-Type: ".spec_bytes() + ctype + "\r\n".spec_bytes()
        + "Content-Length: ".spec_bytes() + dec_bytes(declared_len) + "\r\n".spec_bytes()
        + "Connection: close\r\n".spec_bytes()
}

/// The full wire bytes of a response: fixed headers, extra headers in given
/// order, a blank line, then the body verbatim.
pub open spec fn response_bytes(
    code: u16,
    reason: Seq<u8>,
    body: Seq<u8>,
    declared_len: nat,
    ctype: Seq<u8>,
    extra: Seq<(Seq<u8>, Seq<u8>)>,
) -> Seq<u8> {
    base_block(code, reason, declared_len, ctype) + header_lines(extra) + "\r\n".spec_bytes()
        + body
}

/// The byte view of a borrowed extra-header list.
pub open spec fn hdrs_view(hs: Seq<(&str, &str)>) -> Seq<(Seq<u8>, Seq<u8>)> {
    hs.map_values(|p: (&str, &str)| (p.0.spec_bytes(), p.1.spec_bytes()))
}

/// Serializes a response: status line, `Content-Type`, `Content-Length` (the
/// declared length, deliberately independent of `body.len()` so HEAD can
/// declare the real resource size over an empty body), `Connection: close`,
/// the extra headers in order, a blank line, then the body.
pub fn build_response(
    code: u16,
    reason: &str,
    body: &[u8],
    declared_len: usize,
    content_type: &str,
    extra_hdrs: &[(&str, &str)],
) -> (r: Vec<u8>)
    ensures
        r@ == response_bytes(
            code,
            reason.spec_bytes(),
            body@,
            declared_len as nat,
            content_type.spec_bytes(),
            hdrs_view(extra_hdrs@),
        ),
{
    let mut r: Vec<u8> = Vec::new();
    push_str(&mut r, "HTTP/1.1 ");
    let code_digits = dec_u64(code as u64);
    push_bytes(&mut r, code_digits.as_slice());
    push_str(&mut r, " ");
    push_str(&mut r, reason);
    push_str(&mut r, "\r\n");
    push_str(&mut r, "Content-Type: ");
    push_str(&mut r, content_type);
    push_str(&mut r, "\r\n");
    push_str(&mut r, "Content-Length: ");
    let len_digits = dec_u64(declared_len as u64);
    push_bytes(&mut r, len_digits.as_slice());
    push_str(&mut r, "\r\n");
    push_str(&mut r, "Connection: close\r\n");
    proof {
        assert(r@ =~= base_block(
            code,
            reason.spec_bytes(),
            declared_len as nat,
            content_type.spec_bytes(),
        ));
    }
    let ghost base = r@;
    let mut k: usize = 0;
    while k < extra_hdrs.len()
        invariant
            0 <= k <= extra_hdrs@.len(),
            r@ == base + header_lines(hdrs_view(extra_hdrs@.take(k as int))),
        decreases extra_hdrs@.len() - k,
    {
        let name = extra_hdrs[k].0;
        let value = extra_hdrs[k].1;
        push_str(&mut r, name);
        push_str(&mut r, ": ");
        push_str(&mut r, value);
        push_str(&mut r, "\r\n");
        proof {
            let taken = hdrs_view(extra_hdrs@.take(k + 1));
            assert(taken.drop_last() =~= hdrs_view(extra_hdrs@.take(k as int)));
            assert(taken.last() == (
                extra_hdrs@[k as int].0.spec_bytes(),
                extra_hdrs@[k as int].1.spec_bytes(),
            ));
            assert(r@ =~= base + header_lines(taken));
        }
        k += 1;
    }
    proof {
        assert(extra_hdrs@.take(extra_hdrs@.len() as int) =~= extra_hdrs@);
    }
    push_str(&mut r, "\r\n");
    push_bytes(&mut r, body);
    proof {
        assert(r@ =~= response_bytes(
            code,
            reason.spec_bytes(),
            body@,
            declared_len as nat,
            content_type.spec_bytes(),
            hdrs_view(extra_hdrs@),
        ));
    }
    r
}

/// A 200 response with no extra headers.
pub fn ok(body: &[u8], declared_len: usize, content_type: &str) -> (r: Vec<u8>)
    ensures
        r@ == response_bytes(
            200,
            "OK".spec_bytes(),
            body@,
            declared_len as nat,
            content_type.spec_bytes(),
            Seq::empty(),
        ),
{
    let hs: Vec<(&str, &str)> = Vec::new();
    let r = build_response(200, "OK", body, declared_len, content_type, hs.as_slice());
    proof {
        assert(hdrs_view(hs@) =~= Seq::<(Seq<u8>, Seq<u8>)>::empty());
    }
    r
}

/// The wire bytes of a 400 response whose plain-text body is `msg`.
pub open spec fn bad_request_bytes(msg: Seq<u8>) -> Seq<u8> {
    response_bytes(
        400,
        "Bad Request".spec_bytes(),
        msg,
        msg.len(),
        "text/plain; charset=utf-8".spec_bytes(),
        Seq::empty(),
    )
}

/// A 400 response carrying the parse failure message as plain text.
pub fn bad_request(msg: &str) -> (r: Vec<u8>)
    ensures
        r@ == bad_request_bytes(msg.spec_bytes()),
{
    let body = msg.as_bytes();
    let hs: Vec<(&str, &str)> = Vec::new();
    let r = build_response(
        400,
        "Bad Request",
        body,
        body.len(),
        "text/plain; charset=utf-8",
        hs.as_slice(),
    );
    proof {
        assert(hdrs_view(hs@) =~= Seq::<(Seq<u8>, Seq<u8>)>::empty());
    }
    r
}

/// The wire bytes of the fixed 405 response, with `Allow: GET, HEAD`.
pub open spec fn method_not_allowed_bytes() -> Seq<u8> {
    response_bytes(
        405,
        "Method Not Allowed".spec_bytes(),
        "Method Not Allowed".spec_bytes(),
        "Method Not Allowed".spec_bytes().len(),
        "text/plain; charset=utf-8".spec_bytes(),
        seq![("Allow".spec_bytes(), "GET, HEAD".spec_bytes())],
    )
}

/// The fixed 405 response for any method outside GET and HEAD.
pub fn method_not_allowed() -> (r: Vec<u8>)
    ensures
        r@ == method_not_allowed_bytes(),
{
    let body = "Method Not Allowed".as_bytes();
    let mut hs: Vec<(&str, &str)> = Vec::new();
    hs.push(("Allow", "GET, HEAD"));
    let r = build_response(
        405,
        "Method Not Allowed",
        body,
        body.len(),
        "text/plain; charset=utf-8",
        hs.as_slice(),
    );
    proof {
        assert(hdrs_view(hs@) =~= seq![("Allow".spec_bytes(), "GET, HEAD".spec_bytes())]);
    }
    r
}

/// The GET and HEAD tokens differ on the wire.
pub proof fn lemma_method_tokens_differ()
    ensures
        "GET".spec_bytes() != "HEAD".spec_bytes(),
{
    reveal_strlit("GET");
    reveal_strlit("HEAD");
    assert(vstd::utf8::is_ascii_chars("GET"@));
    assert(vstd::utf8::is_ascii_chars("HEAD"@));
    vstd::utf8::is_ascii_chars_encode_utf8("GET"@);
    vstd::utf8::is_ascii_chars_encode_utf8("HEAD"@);
    assert("GET".spec_bytes().len() == 3);
    assert("HEAD".spec_bytes().len() == 4);
}

/// Every response carries `Connection: close`: the serialized bytes always
/// contain that header line, whatever the status, headers and body.
pub proof fn lemma_response_has_connection_close(
    code: u16,
    reason: Seq<u8>,
    body: Seq<u8>,
    declared_len: nat,
    ctype: Seq<u8>,
    extra: Seq<(Seq<u8>, Seq<u8>)>,
)
    ensures
        contains_pat(
            response_bytes(code, reason, body, declared_len, ctype, extra),
            "Connection: close\r\n".spec_bytes(),
        ),
{
    let cc = "Connection: close\r\n".spec_bytes();
    let pre = status_line(code, reason) + "Content-Type: ".spec_bytes() + ctype
        + "\r\n".spec_bytes() + "Content-Length: ".spec_bytes() + dec_bytes(declared_len)
        + "\r\n".spec_bytes();
    let resp = response_bytes(code, reason, body, declared_len, ctype, extra);
    let idx = pre.len() as int;
    assert(resp.subrange(idx, idx + cc.len()) =~= cc);
    assert(matches_at(resp, cc, idx));
}

} // verus!
