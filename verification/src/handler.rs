//! Dispatch glue between the codec and the resolver: GET and HEAD load the
//! asset and map resolver errors to 404/403/500; every other method yields the
//! fixed 405 response.
use crate::bytes::contains_pat;
use crate::http::{
    bad_request_bytes, build_response, hdrs_view, lemma_response_has_connection_close,
    message_bytes, method_matches, method_not_allowed, method_not_allowed_bytes, ok,
    response_bytes, spec_parse, Method, Request,
};
use crate::static_files::{load_get, load_head, load_spec, FileEntry, StaticError};
use crate::static_files::DocRoot;
use vstd::prelude::*;
use vstd::string::StringSliceAdditionalSpecFns;

verus! {

/// The wire bytes of a minimal status response: the reason phrase is the
/// plain-text body (empty for HEAD) and also sets the declared length.
pub open spec fn simple_response_bytes(code: u16, reason: Seq<u8>, head_only: bool) -> Seq<u8> {
    response_bytes(
        code,
        reason,
        if head_only {
            Seq::empty()
        } else {
            reason
        },
        reason.len(),
        "text/plain; charset=utf-8".spec_bytes(),
        Seq::empty(),
    )
}

/// A minimal status response carrying the reason phrase as plain text.
pub fn build_simple(code: u16, reason: &str, head_only: bool) -> (r: Vec<u8>)
    ensures
        r@ == simple_response_bytes(code, reason.spec_bytes(), head_only),
{
    let body = reason.as_bytes();
    let declared_len = body.len();
    let empty: Vec<u8> = Vec::new();
    let resp_body: &[u8] = if head_only {
        empty.as_slice()
    } else {
        body
    };
    let hs: Vec<(&str, &str)> = Vec::new();
    let r = build_response(
        code,
        reason,
        resp_body,
        declared_len,
        "text/plain; charset=utf-8",
        hs.as_slice(),
    );
    proof {
        assert(hdrs_view(hs@) =~= Seq::<(Seq<u8>, Seq<u8>)>::empty());
    }
    r
}

/// The wire bytes answering a GET or HEAD: 200 with the asset on success,
/// otherwise 404 for a missing entry, 403 for a traversal attempt or a
/// non-regular file, and 500 for a read failure.
pub open spec fn respond_spec(es: Seq<FileEntry>, target: Seq<u8>, head_only: bool) -> Seq<u8> {
    match load_spec(es, target, head_only) {
        Ok(r) => response_bytes(200, "OK".spec_bytes(), r.2, r.0, r.1, Seq::empty()),
        Err(StaticError::NotFound) => simple_response_bytes(
            404,
            "Not Found".spec_bytes(),
            head_only,
        ),
        Err(StaticError::Forbidden) => simple_response_bytes(
            403,
            "Forbidden".spec_bytes(),
            head_only,
        ),
        Err(StaticError::Io) => simple_response_bytes(
            500,
            "Internal Server Error".spec_bytes(),
            head_only,
        ),
    }
}

fn respond_static(req: &Request, root: &DocRoot, head_only: bool) -> (r: Vec<u8>)
    ensures
        r@ == respond_spec(root.entries@, req.target@, head_only),
{
    let result = if head_only {
        load_head(root, req.target.as_slice())
    } else {
        load_get(root, req.target.as_slice())
    };
    match result {
        Ok(asset) => ok(asset.body.as_slice(), asset.declared_len, asset.content_type),
        Err(StaticError::NotFound) => build_simple(404, "Not Found", head_only),
        Err(StaticError::Forbidden) => build_simple(403, "Forbidden", head_only),
        Err(StaticError::Io) => build_simple(500, "Internal Server Error", head_only),
    }
}

/// The wire bytes answering a request whose method token is `tok`: GET and
/// HEAD go to the resolver; any other token gets the fixed 405.
pub open spec fn handle_bytes(tok: Seq<u8>, target: Seq<u8>, es: Seq<FileEntry>) -> Seq<u8> {
    if tok == "GET".spec_bytes() {
        respond_spec(es, target, false)
    } else if tok == "HEAD".spec_bytes() {
        respond_spec(es, target, true)
    } else {
        method_not_allowed_bytes()
    }
}

/// Answers a parsed request against the confinement-root view.
pub fn handle_request(req: &Request, root: &DocRoot) -> (r: Vec<u8>)
    ensures
        req.method is Get ==> r@ == respond_spec(root.entries@, req.target@, false),
        req.method is Head ==> r@ == respond_spec(root.entries@, req.target@, true),
        req.method is Other ==> r@ == method_not_allowed_bytes(),
        forall|tok: Seq<u8>|
            method_matches(req.method, tok) ==> r@ == handle_bytes(tok, req.target@,
            root.entries@),
{
    let r = match &req.method {
        Method::Get => respond_static(req, root, false),
        Method::Head => respond_static(req, root, true),
        Method::Other(_) => method_not_allowed(),
    };
    proof {
        assert forall|tok: Seq<u8>| method_matches(req.method, tok) implies r@ == handle_bytes(
            tok,
            req.target@,
            root.entries@,
        ) by {
            crate::http::lemma_method_tokens_differ();
            if req.method is Get {
                assert(tok == "GET".spec_bytes());
                assert(r@ == respond_spec(root.entries@, req.target@, false));
                assert(handle_bytes(tok, req.target@, root.entries@) == respond_spec(
                    root.entries@,
                    req.target@,
                    false,
                ));
            } else if req.method is Head {
                assert(tok == "HEAD".spec_bytes());
                assert(r@ == respond_spec(root.entries@, req.target@, true));
                assert(handle_bytes(tok, req.target@, root.entries@) == respond_spec(
                    root.entries@,
                    req.target@,
                    true,
                ));
            } else {
                assert(tok != "GET".spec_bytes() && tok != "HEAD".spec_bytes());
                assert(r@ == method_not_allowed_bytes());
                assert(handle_bytes(tok, req.target@, root.entries@)
                    == method_not_allowed_bytes());
            }
        }
    }
    r
}

/// The wire bytes a connection answers once its buffer holds a full header
/// block: the parsed request dispatched, or a 400 carrying the parse failure
/// message.
pub open spec fn response_for(buf: Seq<u8>, es: Seq<FileEntry>) -> Seq<u8> {
    match spec_parse(buf) {
        Ok(mt) => handle_bytes(mt.0, mt.1, es),
        Err(e) => bad_request_bytes(message_bytes(e)),
    }
}

/// The plain-text body of the GET response for a target: the file bytes on
/// success, else the reason phrase of the error status.
pub open spec fn response_body_bytes(es: Seq<FileEntry>, target: Seq<u8>) -> Seq<u8> {
    match load_spec(es, target, false) {
        Ok(r) => r.2,
        Err(StaticError::NotFound) => "Not Found".spec_bytes(),
        Err(StaticError::Forbidden) => "Forbidden".spec_bytes(),
        Err(StaticError::Io) => "Internal Server Error".spec_bytes(),
    }
}

/// HEAD answers with exactly the headers of the matching GET over an empty
/// body: the GET response is the HEAD response followed by the GET body. The
/// one case left out is a file whose read fails, where GET reports 500 while
/// HEAD, which never reads, still answers 200.
pub proof fn lemma_head_headers_match_get(es: Seq<FileEntry>, target: Seq<u8>)
    requires
        load_spec(es, target, false) != Err::<(nat, Seq<u8>, Seq<u8>), StaticError>(
            StaticError::Io,
        ),
    ensures
        respond_spec(es, target, false) == respond_spec(es, target, true) + response_body_bytes(
            es,
            target,
        ),
{
    match load_spec(es, target, false) {
        Ok(r) => {
            assert(load_spec(es, target, true) == Ok::<(nat, Seq<u8>, Seq<u8>), StaticError>(
                (r.0, r.1, Seq::<u8>::empty()),
            ));
            assert(respond_spec(es, target, false) =~= respond_spec(es, target, true) + r.2);
        },
        Err(e) => {
            assert(load_spec(es, target, true) == Err::<(nat, Seq<u8>, Seq<u8>), StaticError>(e));
            let reason = response_body_bytes(es, target);
            assert(respond_spec(es, target, false) =~= respond_spec(es, target, true) + reason);
        },
    }
}

proof fn lemma_respond_spec_has_connection_close(
    es: Seq<FileEntry>,
    target: Seq<u8>,
    head_only: bool,
)
    ensures
        contains_pat(
            respond_spec(es, target, head_only),
            "Connection: close\r\n".spec_bytes(),
        ),
{
    let ct = "text/plain; charset=utf-8".spec_bytes();
    match load_spec(es, target, head_only) {
        Ok(r) => {
            lemma_response_has_connection_close(
                200,
                "OK".spec_bytes(),
                r.2,
                r.0,
                r.1,
                Seq::empty(),
            );
        },
        Err(StaticError::NotFound) => {
            let reason = "Not Found".spec_bytes();
            let body = if head_only {
                Seq::<u8>::empty()
            } else {
                reason
            };
            lemma_response_has_connection_close(404, reason, body, reason.len(), ct, Seq::empty());
        },
        Err(StaticError::Forbidden) => {
            let reason = "Forbidden".spec_bytes();
            let body = if head_only {
                Seq::<u8>::empty()
            } else {
                reason
            };
            lemma_response_has_connection_close(403, reason, body, reason.len(), ct, Seq::empty());
        },
        Err(StaticError::Io) => {
            let reason = "Internal Server Error".spec_bytes();
            let body = if head_only {
                Seq::<u8>::empty()
            } else {
                reason
            };
            lemma_response_has_connection_close(500, reason, body, reason.len(), ct, Seq::empty());
        },
    }
}

/// Every response the server computes for a connection — whatever bytes
/// arrived and whatever the confinement root holds — carries
/// `Connection: close`.
pub proof fn lemma_every_response_has_connection_close(buf: Seq<u8>, es: Seq<FileEntry>)
    ensures
        contains_pat(response_for(buf, es), "Connection: close\r\n".spec_bytes()),
{
    match spec_parse(buf) {
        Err(e) => {
            lemma_response_has_connection_close(
                400,
                "Bad Request".spec_bytes(),
                message_bytes(e),
                message_bytes(e).len(),
                "text/plain; charset=utf-8".spec_bytes(),
                Seq::empty(),
            );
        },
        Ok(mt) => {
            if mt.0 == "GET".spec_bytes() {
                lemma_respond_spec_has_connection_close(es, mt.1, false);
            } else if mt.0 == "HEAD".spec_bytes() {
                lemma_respond_spec_has_connection_close(es, mt.1, true);
            } else {
                lemma_response_has_connection_close(
                    405,
                    "Method Not Allowed".spec_bytes(),
                    "Method Not Allowed".spec_bytes(),
                    "Method Not Allowed".spec_bytes().len(),
                    "text/plain; charset=utf-8".spec_bytes(),
                    seq![("Allow".spec_bytes(), "GET, HEAD".spec_bytes())],
                );
            }
        },
    }
}

/// Repeated identical requests against an unmodified confinement root yield
/// byte-identical responses: the response is a function of the accumulated
/// request bytes and the root view alone.
pub proof fn lemma_identical_requests_identical_responses(
    buf: Seq<u8>,
    es: Seq<FileEntry>,
    r1: Seq<u8>,
    r2: Seq<u8>,
)
    requires
        r1 == response_for(buf, es),
        r2 == response_for(buf, es),
    ensures
        r1 == r2,
{
}

} // verus!
