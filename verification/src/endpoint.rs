use vstd::prelude::*;
use vstd::string::StrSliceExecFns;

verus! {

/// The HTTP methods a route can be registered under.
#[derive(Clone, Copy, PartialEq, Eq, Structural, Debug)]
pub enum Method {
    Get,
    Head,
    Post,
    Put,
    Delete,
    Options,
    Patch,
    Trace,
    Connect,
}

/// One declared route of a group: an HTTP method together with a literal path.
pub struct Endpoint {
    pub method: Method,
    pub path: String,
}

impl View for Endpoint {
    type V = (Method, Seq<char>);

    open spec fn view(&self) -> (Method, Seq<char>) {
        (self.method, self.path@)
    }
}

impl Endpoint {
    pub fn new(method: Method, path: &str) -> (e: Endpoint)
        ensures
            e@ == (method, path@),
    {
        Endpoint { method, path: path.to_owned() }
    }
}

/// A path the composer accepts: non-empty, rooted at `/`, and literal, that
/// is, free of the capture and wildcard markers `{`, `}`, `*` and `:` that
/// give a path segment a special meaning in the underlying dispatch
/// mechanism.
pub open spec fn plain_path(p: Seq<char>) -> bool {
    &&& p.len() > 0
    &&& p[0] == '/'
    &&& forall|i: int|
        0 <= i < p.len() ==> p[i] != '{' && p[i] != '}' && p[i] != '*' && p[i] != ':'
}

/// Relies on `str`'s `==`: two strings are equal exactly when their
/// characters are.
#[verifier::external_body]
pub(crate) fn str_eq(a: &str, b: &str) -> (r: bool)
    ensures
        r == (a@ == b@),
{
    a == b
}

/// Decides whether a path is one the composer accepts.
pub fn check_plain_path(p: &str) -> (b: bool)
    ensures
        b == plain_path(p@),
{
    let n = p.unicode_len();
    if n == 0 {
        return false;
    }
    if p.get_char(0) != '/' {
        return false;
    }
    let mut i: usize = 0;
    while i < n
        invariant
            n == p@.len(),
            i <= n,
            p@.len() > 0,
            p@[0] == '/',
            forall|j: int|
                0 <= j < i ==> p@[j] != '{' && p@[j] != '}' && p@[j] != '*' && p@[j] != ':',
        decreases n - i,
    {
        let c = p.get_char(i);
        if c == '{' || c == '}' || c == '*' || c == ':' {
            return false;
        }
        i = i + 1;
    }
    true
}

} // verus!
