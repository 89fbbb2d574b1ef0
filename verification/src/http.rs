//! Request methods and the permissions that management requests need.
use vstd::prelude::*;

verus! {

/// The request methods that the management endpoints tell apart.
#[derive(PartialEq, Eq, Structural, Clone, Copy, Debug)]
pub enum HttpMethod {
    Get,
    Post,
    Delete,
    Put,
    Patch,
    Other,
}

/// The permissions that management requests are checked against.
#[derive(PartialEq, Eq, Structural, Clone, Copy, Debug)]
pub enum Permission {
    DomainGet,
    DomainCreate,
    DomainDelete,
    LogsView,
    Restart,
}

} // verus!

verus! {

/// The element of a request path at a position, if the path has one.
pub open spec fn path_element(path: Seq<String>, i: int) -> Option<Seq<char>> {
    if 0 <= i < path.len() {
        Some(path[i]@)
    } else {
        None
    }
}

/// The element of a request path at a position, or the empty text.
pub open spec fn path_element_or_empty(path: Seq<String>, i: int) -> Seq<char> {
    match path_element(path, i) {
        Some(e) => e,
        None => Seq::empty(),
    }
}

/// `path.get(i)`, copied.
pub fn path_get(path: &Vec<String>, i: usize) -> (r: Option<String>)
    ensures
        match r {
            Some(s) => path_element(path@, i as int) == Some(s@),
            None => path_element(path@, i as int) is None,
        },
{
    if i < path.len() {
        Some(path[i].clone())
    } else {
        None
    }
}

/// `path.get(i).copied().unwrap_or_default()`.
pub fn path_get_or_empty(path: &Vec<String>, i: usize) -> (r: String)
    ensures
        r@ == path_element_or_empty(path@, i as int),
{
    match path_get(path, i) {
        Some(s) => s,
        None => String::new(),
    }
}

} // verus!
