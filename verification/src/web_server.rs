//! The texts the node's web endpoints answer with.
use vstd::prelude::*;

verus! {

/// The answer of the root path.
pub fn hello() -> (r: &'static str)
    ensures
        r@ == "Hello world from axum!"@,
{
    "Hello world from axum!"
}

/// The greeting for `name`: `Hello, <name>!`.
pub fn greeting(name: &str) -> (r: String)
    ensures
        r@ == "Hello, "@ + name@ + "!"@,
{
    let mut r = String::from_str("Hello, ");
    r.append(name);
    r.append("!");
    r
}

} // verus!
