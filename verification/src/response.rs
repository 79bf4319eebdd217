//! The response builder and the pure request-handling pipeline.
//!
//! `handle_request` is the whole serving chain as a side-effect-free
//! function from (method, path, gathered snapshot) to a complete response;
//! the process around it only reads the request, gathers the snapshot, and
//! transmits the result.

use vstd::prelude::*;

use crate::encode::{encode, exposition};
use crate::model::{FamilyV, Snapshot};
use crate::router::{metrics_path, root_path, route, spec_route, HttpMethod, Route};

verus! {

/// A complete, fully buffered HTTP response.
pub struct HttpResponse {
    pub status: u16,
    pub content_type: Vec<u8>,
    pub body: Vec<u8>,
}

/// Mathematical value of an `HttpResponse`.
#[verifier::ext_equal]
pub struct ResponseV {
    pub status: u16,
    pub content_type: Seq<u8>,
    pub body: Seq<u8>,
}

impl View for HttpResponse {
    type V = ResponseV;

    open spec fn view(&self) -> ResponseV {
        ResponseV { status: self.status, content_type: self.content_type@, body: self.body@ }
    }
}

/// A failure of the snapshot-and-encode pipeline, recovered per request.
/// The detail text becomes the diagnostic body of the 500 response.
pub struct EncodingError {
    pub detail: Vec<u8>,
}

impl View for EncodingError {
    type V = Seq<u8>;

    open spec fn view(&self) -> Seq<u8> {
        self.detail@
    }
}

/// The bytes of `"text/plain"`.
pub open spec fn text_plain() -> Seq<u8> {
    seq![116u8, 101u8, 120u8, 116u8, 47u8, 112u8, 108u8, 97u8, 105u8, 110u8]
}

/// The bytes of `"text/plain; version=0.0.4"`, the exposition format's
/// registered content type.
pub open spec fn metrics_content_type() -> Seq<u8> {
    text_plain() + seq![
        59u8,
        32u8,
        118u8,
        101u8,
        114u8,
        115u8,
        105u8,
        111u8,
        110u8,
        61u8,
        48u8,
        46u8,
        48u8,
        46u8,
        52u8,
    ]
}

/// The bytes of the fixed greeting body, `"Hello World"`.
pub open spec fn hello_body() -> Seq<u8> {
    seq![72u8, 101u8, 108u8, 108u8, 111u8, 32u8, 87u8, 111u8, 114u8, 108u8, 100u8]
}

/// The bytes of the fixed not-found body, `"Missing Page"`.
pub open spec fn missing_body() -> Seq<u8> {
    seq![77u8, 105u8, 115u8, 115u8, 105u8, 110u8, 103u8, 32u8, 80u8, 97u8, 103u8, 101u8]
}

/// What the gathering step handed over, as a mathematical value: the
/// families of a snapshot, or the detail text of an encoding failure.
pub open spec fn gather_view(g: Result<Snapshot, EncodingError>) -> Result<Seq<FamilyV>, Seq<u8>> {
    match g {
        Ok(s) => Ok(s@),
        Err(e) => Err(e@),
    }
}

/// The response owed to every request: dispatch by route, then build.
pub open spec fn spec_response(
    m: HttpMethod,
    path: Seq<u8>,
    gathered: Result<Seq<FamilyV>, Seq<u8>>,
) -> ResponseV {
    match spec_route(m, path) {
        Route::Root => ResponseV { status: 200, content_type: text_plain(), body: hello_body() },
        Route::NotFound => ResponseV {
            status: 404,
            content_type: text_plain(),
            body: missing_body(),
        },
        Route::Metrics => match gathered {
            Ok(fams) => ResponseV {
                status: 200,
                content_type: metrics_content_type(),
                body: exposition(fams),
            },
            Err(detail) => ResponseV { status: 500, content_type: text_plain(), body: detail },
        },
    }
}

/// Builds `"text/plain"` as bytes.
fn text_plain_bytes() -> (r: Vec<u8>)
    ensures
        r@ == text_plain(),
{
    let mut v: Vec<u8> = Vec::new();
    v.push(116);
    v.push(101);
    v.push(120);
    v.push(116);
    v.push(47);
    v.push(112);
    v.push(108);
    v.push(97);
    v.push(105);
    v.push(110);
    proof {
        assert(v@ =~= text_plain());
    }
    v
}

/// Builds `"text/plain; version=0.0.4"` as bytes.
fn metrics_content_type_bytes() -> (r: Vec<u8>)
    ensures
        r@ == metrics_content_type(),
{
    let mut v = text_plain_bytes();
    v.push(59);
    v.push(32);
    v.push(118);
    v.push(101);
    v.push(114);
    v.push(115);
    v.push(105);
    v.push(111);
    v.push(110);
    v.push(61);
    v.push(48);
    v.push(46);
    v.push(48);
    v.push(46);
    v.push(52);
    proof {
        assert(v@ =~= metrics_content_type());
    }
    v
}

/// The greeting response: 200, plain text, `"Hello World"`.
pub fn root_response() -> (r: HttpResponse)
    ensures
        r@.status == 200,
        r@.content_type == text_plain(),
        r@.body == hello_body(),
{
    let mut body: Vec<u8> = Vec::new();
    body.push(72);
    body.push(101);
    body.push(108);
    body.push(108);
    body.push(111);
    body.push(32);
    body.push(87);
    body.push(111);
    body.push(114);
    body.push(108);
    body.push(100);
    proof {
        assert(body@ =~= hello_body());
    }
    HttpResponse { status: 200, content_type: text_plain_bytes(), body }
}

/// The not-found response: 404, plain text, `"Missing Page"`.
pub fn not_found_response() -> (r: HttpResponse)
    ensures
        r@.status == 404,
        r@.content_type == text_plain(),
        r@.body == missing_body(),
{
    let mut body: Vec<u8> = Vec::new();
    body.push(77);
    body.push(105);
    body.push(115);
    body.push(115);
    body.push(105);
    body.push(110);
    body.push(103);
    body.push(32);
    body.push(80);
    body.push(97);
    body.push(103);
    body.push(101);
    proof {
        assert(body@ =~= missing_body());
    }
    HttpResponse { status: 404, content_type: text_plain_bytes(), body }
}

/// The successful metrics response: 200, the format's content type, and the
/// snapshot rendered into the exposition format.
pub fn metrics_response(snap: &Snapshot) -> (r: HttpResponse)
    ensures
        r@.status == 200,
        r@.content_type == metrics_content_type(),
        r@.body == exposition(snap@),
{
    let body = encode(snap);
    HttpResponse { status: 200, content_type: metrics_content_type_bytes(), body }
}

/// The encode-failure response: 500, plain text, the failure's diagnostic
/// text as body. The failure is answered, never propagated.
pub fn encode_failure_response(err: EncodingError) -> (r: HttpResponse)
    ensures
        r@.status == 500,
        r@.content_type == text_plain(),
        r@.body == err@,
{
    HttpResponse { status: 500, content_type: text_plain_bytes(), body: err.detail }
}

/// The whole serving chain, side-effect-free: route the request, then build
/// the one response `spec_response` owes it. `gathered` is what the
/// snapshot-gathering step produced; routes other than the metrics route
/// ignore it.
pub fn handle_request(m: HttpMethod, path: &[u8], gathered: Result<Snapshot, EncodingError>) -> (r:
    HttpResponse)
    ensures
        r@ == spec_response(m, path@, gather_view(gathered)),
{
    match route(m, path) {
        Route::Root => root_response(),
        Route::NotFound => not_found_response(),
        Route::Metrics => match gathered {
            Ok(snap) => metrics_response(&snap),
            Err(err) => encode_failure_response(err),
        },
    }
}

/// The greeting is served whatever the registry holds: on the root route
/// the response is 200 with the fixed greeting body, and two requests under
/// any two gather outcomes are answered identically.
pub proof fn lemma_root_independent_of_registry(
    m: HttpMethod,
    path: Seq<u8>,
    g1: Result<Seq<FamilyV>, Seq<u8>>,
    g2: Result<Seq<FamilyV>, Seq<u8>>,
)
    requires
        spec_route(m, path) == Route::Root,
    ensures
        spec_response(m, path, g1) == spec_response(m, path, g2),
        spec_response(m, path, g1).status == 200,
        spec_response(m, path, g1).body == hello_body(),
{
}

/// A path that is neither the root nor the metrics path is answered 404
/// with the fixed not-found body, whatever the method and the registry.
pub proof fn lemma_unknown_path_not_found(
    m: HttpMethod,
    path: Seq<u8>,
    g: Result<Seq<FamilyV>, Seq<u8>>,
)
    requires
        path != metrics_path(),
        path != root_path(),
    ensures
        spec_response(m, path, g).status == 404,
        spec_response(m, path, g).body == missing_body(),
{
}

/// A method other than GET is answered 404 on every path, the known ones
/// included: an unmatched method on a known path falls through to not-found.
pub proof fn lemma_method_mismatch_not_found(
    m: HttpMethod,
    path: Seq<u8>,
    g: Result<Seq<FamilyV>, Seq<u8>>,
)
    requires
        m != HttpMethod::Get,
    ensures
        spec_response(m, path, g).status == 404,
        spec_response(m, path, g).body == missing_body(),
{
}

/// Fault isolation: a scrape whose pipeline failed is answered 500, and a
/// following scrape whose pipeline succeeded is answered 200 with the full
/// encoding — the failure leaves no trace.
pub proof fn lemma_encode_failure_isolated(detail: Seq<u8>, fams: Seq<FamilyV>)
    ensures
        spec_response(HttpMethod::Get, metrics_path(), Err(detail)).status == 500,
        spec_response(HttpMethod::Get, metrics_path(), Ok(fams)).status == 200,
        spec_response(HttpMethod::Get, metrics_path(), Ok(fams)).body == exposition(fams),
{
}

/// Determinism: two scrapes of registry states with equal contents are
/// answered with byte-identical bodies, whatever request they belong to.
pub proof fn lemma_scrapes_deterministic(
    m: HttpMethod,
    path: Seq<u8>,
    s1: Snapshot,
    s2: Snapshot,
)
    requires
        s1@ == s2@,
    ensures
        spec_response(m, path, Ok(s1@)) == spec_response(m, path, Ok(s2@)),
{
}

} // verus!
