//! Request routing.
//!
//! Three routes exist: `GET /{key}`, `PUT /` and `DELETE /{key}`.  The key
//! is the single path segment after the leading slash, taken verbatim and
//! never empty; a path with further slashes matches no route.  Anything
//! else is left to the hosting layer's own not-found answer.

use vstd::prelude::*;

verus! {

/// The HTTP method of an inbound request, as far as routing cares.
pub enum Method {
    Get,
    Put,
    Delete,
    /// Any other method; never routed.
    Other,
}

/// Where a request is dispatched.
pub enum Dispatch {
    /// `GET /{key}`: read the entry at the key.
    Read(Vec<u8>),
    /// `PUT /`: validate the body and write.
    Write,
    /// `DELETE /{key}`: delete the entry at the key.
    Erase(Vec<u8>),
    /// No route matches; the hosting layer answers.
    NoRoute,
}

/// Mathematical counterpart of `Dispatch`.
pub ghost enum DispatchView {
    Read(Seq<u8>),
    Write,
    Erase(Seq<u8>),
    NoRoute,
}

impl View for Dispatch {
    type V = DispatchView;

    open spec fn view(&self) -> DispatchView {
        match self {
            Dispatch::Read(k) => DispatchView::Read(k@),
            Dispatch::Write => DispatchView::Write,
            Dispatch::Erase(k) => DispatchView::Erase(k@),
            Dispatch::NoRoute => DispatchView::NoRoute,
        }
    }
}

/// Whether `p` is a slash followed by one non-empty segment, with no
/// further slash: the shape `/{key}`.
pub open spec fn is_key_path(p: Seq<u8>) -> bool {
    &&& p.len() >= 2
    &&& p[0] == 47u8
    &&& forall|i: int| 1 <= i < p.len() ==> p[i] != 47u8
}

/// The key embedded in a path of the shape `/{key}`.
pub open spec fn key_of_path(p: Seq<u8>) -> Seq<u8> {
    p.subrange(1, p.len() as int)
}

/// Which route, if any, the method and path select.
pub open spec fn route_of(m: Method, p: Seq<u8>) -> DispatchView {
    match m {
        Method::Get => if is_key_path(p) {
            DispatchView::Read(key_of_path(p))
        } else {
            DispatchView::NoRoute
        },
        Method::Put => if p == seq![47u8] {
            DispatchView::Write
        } else {
            DispatchView::NoRoute
        },
        Method::Delete => if is_key_path(p) {
            DispatchView::Erase(key_of_path(p))
        } else {
            DispatchView::NoRoute
        },
        Method::Other => DispatchView::NoRoute,
    }
}

/// Copies the key out of a path already known to have the shape `/{key}`.
fn segment_of(path: &Vec<u8>) -> (r: Vec<u8>)
    requires
        path@.len() >= 1,
    ensures
        r@ == key_of_path(path@),
{
    let mut out: Vec<u8> = Vec::new();
    let mut i: usize = 1;
    while i < path.len()
        invariant
            1 <= i <= path@.len(),
            out@ == path@.subrange(1, i as int),
        decreases path@.len() - i,
    {
        out.push(path[i]);
        assert(out@ =~= path@.subrange(1, (i + 1) as int));
        i = i + 1;
    }
    assert(out@ =~= key_of_path(path@));
    out
}

/// Whether the path has the shape `/{key}`.
fn check_key_path(path: &Vec<u8>) -> (r: bool)
    ensures
        r == is_key_path(path@),
{
    if path.len() < 2 || path[0] != 47u8 {
        return false;
    }
    let mut i: usize = 1;
    while i < path.len()
        invariant
            1 <= i <= path@.len(),
            path@.len() >= 2,
            path@[0] == 47u8,
            forall|j: int| 1 <= j < i ==> path@[j] != 47u8,
        decreases path@.len() - i,
    {
        if path[i] == 47u8 {
            return false;
        }
        i = i + 1;
    }
    true
}

/// Dispatches a request by method and path.
pub fn route(m: Method, path: &Vec<u8>) -> (r: Dispatch)
    ensures
        r@ == route_of(m, path@),
{
    match m {
        Method::Get => {
            if check_key_path(path) {
                Dispatch::Read(segment_of(path))
            } else {
                Dispatch::NoRoute
            }
        },
        Method::Put => {
            if path.len() == 1 && path[0] == 47u8 {
                assert(path@ =~= seq![47u8]);
                Dispatch::Write
            } else {
                assert(path@ != seq![47u8]) by {
                    if path@.len() == 1 && path@[0] == 47u8 {
                        assert(path@ =~= seq![47u8]);
                    }
                }
                Dispatch::NoRoute
            }
        },
        Method::Delete => {
            if check_key_path(path) {
                Dispatch::Erase(segment_of(path))
            } else {
                Dispatch::NoRoute
            }
        },
        Method::Other => Dispatch::NoRoute,
    }
}

} // verus!
