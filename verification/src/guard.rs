//! Guards: pure, side-effect-free predicates over request metadata
//! (method and headers). A route is eligible only when every guard in
//! its ordered chain holds; the chain is a logical AND.

use vstd::prelude::*;
use crate::chars::method_eq;
use crate::request::{first_value, lookup_first, IncomingRequest};

verus! {

/// The closed set of guard predicates.
///
/// - `MethodIs(m)`: the request method equals `m` up to ASCII case.
/// - `HeaderEquals(name, value)`: the first header with the given name
///   is present and equals `value` exactly; absence is a non-match.
/// - `HeaderPresent(name)`: a header with the given name is present.
#[derive(Clone, Debug)]
pub enum Guard {
    MethodIs(String),
    HeaderEquals(String, String),
    HeaderPresent(String),
}

/// What one guard means over the request metadata.
pub open spec fn guard_holds(
    g: Guard,
    method: Seq<char>,
    headers: Seq<(Seq<char>, Seq<char>)>,
) -> bool {
    match g {
        Guard::MethodIs(m) => method_eq(m@, method),
        Guard::HeaderEquals(n, v) => first_value(headers, n@) == Some(v@),
        Guard::HeaderPresent(n) => first_value(headers, n@) is Some,
    }
}

/// A whole chain holds when every guard in it holds; order never
/// changes the result.
pub open spec fn guards_pass(
    gs: Seq<Guard>,
    method: Seq<char>,
    headers: Seq<(Seq<char>, Seq<char>)>,
) -> bool {
    forall|i: int| 0 <= i < gs.len() ==> guard_holds(#[trigger] gs[i], method, headers)
}

/// Evaluates one guard against the request.
pub fn eval_guard(g: &Guard, req: &IncomingRequest) -> (r: bool)
    ensures
        r == guard_holds(*g, req.method@, req.headers.deep_view()),
{
    match g {
        Guard::MethodIs(m) => crate::chars::eq_ignore_ascii_case(m.as_str(), req.method.as_str()),
        Guard::HeaderEquals(n, v) => {
            match lookup_first(&req.headers, n) {
                Some(actual) => actual.eq(v),
                None => false,
            }
        },
        Guard::HeaderPresent(n) => lookup_first(&req.headers, n).is_some(),
    }
}

/// Evaluates an ordered guard chain: true iff every guard holds.
pub fn evaluate(gs: &Vec<Guard>, req: &IncomingRequest) -> (r: bool)
    ensures
        r == guards_pass(gs@, req.method@, req.headers.deep_view()),
{
    let n = gs.len();
    let mut i: usize = 0;
    while i < n
        invariant
            i <= n,
            n == gs@.len(),
            forall|j: int|
                0 <= j < i ==> guard_holds(#[trigger] gs@[j], req.method@, req.headers.deep_view()),
        decreases n - i,
    {
        if !eval_guard(&gs[i], req) {
            return false;
        }
        i += 1;
    }
    true
}

} // verus!
