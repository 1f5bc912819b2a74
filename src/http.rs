use vstd::prelude::*;

verus! {

/// The request line that asks for the index page: `GET / HTTP/1.1\r\n`.
pub open spec fn index_request() -> Seq<u8> {
    seq![71u8, 69, 84, 32, 47, 32, 72, 84, 84, 80, 47, 49, 46, 49, 13, 10]
}

/// The request line that asks for the index page after a delay:
/// `GET /sleep HTTP/1.1\r\n`.
pub open spec fn slow_request() -> Seq<u8> {
    seq![71u8, 69, 84, 32, 47, 115, 108, 101, 101, 112, 32, 72, 84, 84, 80, 47, 49, 46, 49, 13, 10]
}

pub fn index_request_bytes() -> (r: Vec<u8>)
    ensures
        r@ == index_request(),
{
    vec![71u8, 69, 84, 32, 47, 32, 72, 84, 84, 80, 47, 49, 46, 49, 13, 10]
}

pub fn slow_request_bytes() -> (r: Vec<u8>)
    ensures
        r@ == slow_request(),
{
    vec![71u8, 69, 84, 32, 47, 115, 108, 101, 101, 112, 32, 72, 84, 84, 80, 47, 49, 46, 49, 13, 10]
}

/// How a connection's request is answered.
#[derive(PartialEq, Eq, Structural, Clone, Copy, Debug)]
pub enum Route {
    /// The index page.
    Index,
    /// The index page, after the worker has slept.
    SlowIndex,
    /// The not-found page.
    NotFound,
}

pub open spec fn starts_with(s: Seq<u8>, prefix: Seq<u8>) -> bool {
    prefix.len() <= s.len() && s.subrange(0, prefix.len() as int) == prefix
}

pub open spec fn route_of(request: Seq<u8>, index: Seq<u8>, slow: Seq<u8>) -> Route {
    if starts_with(request, index) {
        Route::Index
    } else if starts_with(request, slow) {
        Route::SlowIndex
    } else {
        Route::NotFound
    }
}

/// Whether `s` begins with the bytes of `prefix`.
pub fn has_prefix(s: &[u8], prefix: &[u8]) -> (r: bool)
    ensures
        r == starts_with(s@, prefix@),
{
    if prefix.len() > s.len() {
        return false;
    }
    let mut i: usize = 0;
    while i < prefix.len()
        invariant
            i <= prefix@.len() <= s@.len(),
            forall|j: int| 0 <= j < i ==> s@[j] == prefix@[j],
        decreases prefix.len() - i,
    {
        if s[i] != prefix[i] {
            assert(s@.subrange(0, prefix@.len() as int)[i as int] != prefix@[i as int]);
            return false;
        }
        i = i + 1;
    }
    assert(s@.subrange(0, prefix@.len() as int) =~= prefix@);
    true
}

/// Picks the answer to a request from its first bytes.
pub fn route(request: &[u8]) -> (r: Route)
    ensures
        r == route_of(request@, index_request(), slow_request()),
{
    let index = index_request_bytes();
    let slow = slow_request_bytes();
    if has_prefix(request, index.as_slice()) {
        Route::Index
    } else if has_prefix(request, slow.as_slice()) {
        Route::SlowIndex
    } else {
        Route::NotFound
    }
}

impl Route {
    /// The status line of the response.
    pub fn status_line(&self) -> (r: &'static str)
        ensures
            r@ == if *self == Route::NotFound {
                "HTTP/1.1 404 NOT FOUND"@
            } else {
                "HTTP/1.1 200 OK"@
            },
    {
        match self {
            Route::NotFound => "HTTP/1.1 404 NOT FOUND",
            _ => "HTTP/1.1 200 OK",
        }
    }

    /// The file whose contents make the response body.
    pub fn file_name(&self) -> (r: &'static str)
        ensures
            r@ == if *self == Route::NotFound {
                "static/404.html"@
            } else {
                "static/index.html"@
            },
    {
        match self {
            Route::NotFound => "static/404.html",
            _ => "static/index.html",
        }
    }
}

} // verus!
