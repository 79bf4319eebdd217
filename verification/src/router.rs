//! The request router: an exact map from method and path to a handler.
//!
//! Matching is exact: no prefixes, no wildcards. A method mismatch on a
//! known path (for instance a POST to the metrics path) falls through to the
//! not-found branch; there is no distinct method-not-allowed answer.

use vstd::prelude::*;

verus! {

/// An HTTP request method.
#[derive(Clone, Copy, Debug, PartialEq, Eq, Structural)]
pub enum HttpMethod {
    Get,
    Head,
    Post,
    Put,
    Delete,
    Options,
    Patch,
    Other,
}

/// The handler a request is dispatched to.
#[derive(Clone, Copy, Debug, PartialEq, Eq, Structural)]
pub enum Route {
    /// `GET /metrics`: serve the encoded snapshot.
    Metrics,
    /// `GET /`: serve the fixed greeting.
    Root,
    /// Everything else.
    NotFound,
}

/// The bytes of the metrics path, `"/metrics"`.
pub open spec fn metrics_path() -> Seq<u8> {
    seq![47u8, 109u8, 101u8, 116u8, 114u8, 105u8, 99u8, 115u8]
}

/// The bytes of the root path, `"/"`.
pub open spec fn root_path() -> Seq<u8> {
    seq![47u8]
}

/// Where a request goes: `GET /metrics` and `GET /` are recognized, every
/// other method/path pair is not found.
pub open spec fn spec_route(m: HttpMethod, path: Seq<u8>) -> Route {
    if m == HttpMethod::Get && path == metrics_path() {
        Route::Metrics
    } else if m == HttpMethod::Get && path == root_path() {
        Route::Root
    } else {
        Route::NotFound
    }
}

/// Compares two byte strings.
pub(crate) fn bytes_eq(a: &[u8], b: &[u8]) -> (r: bool)
    ensures
        r == (a@ == b@),
{
    if a.len() != b.len() {
        proof {
            assert(a@.len() != b@.len());
        }
        return false;
    }
    let mut i: usize = 0;
    while i < a.len()
        invariant
            a@.len() == b@.len(),
            0 <= i <= a@.len(),
            forall|k: int| 0 <= k < i ==> a@[k] == b@[k],
        decreases a@.len() - i,
    {
        if *vstd::slice::slice_index_get(a, i) != *vstd::slice::slice_index_get(b, i) {
            return false;
        }
        i = i + 1;
    }
    proof {
        assert(a@ =~= b@);
    }
    true
}

/// Builds the metrics path, `"/metrics"`, as bytes.
fn metrics_path_bytes() -> (r: Vec<u8>)
    ensures
        r@ == metrics_path(),
{
    let mut v: Vec<u8> = Vec::new();
    v.push(47);
    v.push(109);
    v.push(101);
    v.push(116);
    v.push(114);
    v.push(105);
    v.push(99);
    v.push(115);
    proof {
        assert(v@ =~= metrics_path());
    }
    v
}

/// Dispatches a request by method and path, with no side effects.
pub fn route(m: HttpMethod, path: &[u8]) -> (r: Route)
    ensures
        r == spec_route(m, path@),
{
    let is_get = match m {
        HttpMethod::Get => true,
        _ => false,
    };
    if !is_get {
        return Route::NotFound;
    }
    if path.len() == 1 && *vstd::slice::slice_index_get(path, 0) == 47 {
        proof {
            assert(path@ =~= root_path());
        }
        return Route::Root;
    }
    let mp = metrics_path_bytes();
    if bytes_eq(path, mp.as_slice()) {
        return Route::Metrics;
    }
    proof {
        assert(path@ != metrics_path());
        assert(path@ != root_path());
    }
    Route::NotFound
}

} // verus!
