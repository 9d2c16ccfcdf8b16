//! The two echo commands: a greeting and a ping reply. Each returns a fixed
//! prefix and suffix around the caller's text, stated exactly in its contract.

use vstd::prelude::*;
use vstd::string::StringExecFns;

verus! {

/// The greeting built around a caller's name.
pub open spec fn greeting(name: Seq<char>) -> Seq<char> {
    "Hello, "@ + name + "! You've been greeted from Rust!"@
}

/// The reply built around an echoed message.
pub open spec fn pong(message: Seq<char>) -> Seq<char> {
    "pong: "@ + message
}

/// Greets the given name.
pub fn greet(name: &str) -> (res: String)
    ensures
        res@ == greeting(name@),
{
    let mut out = String::from_str("Hello, ");
    out.append(name);
    out.append("! You've been greeted from Rust!");
    proof {
        assert(out@ =~= greeting(name@));
    }
    out
}

/// Echoes the given message behind a fixed prefix.
pub fn ping(message: &str) -> (res: String)
    ensures
        res@ == pong(message@),
{
    let mut out = String::from_str("pong: ");
    out.append(message);
    out
}

} // verus!
