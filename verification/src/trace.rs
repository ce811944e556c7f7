//! Timings, when the run asks for them.
//!
//! `--trace` prints one line per piece of work, so the answer comes from a
//! measure and not from an opinion. The switch and the clock are the
//! caller's; what is decided here is that a quiet run pays for nothing:
//! every message is behind a closure, and a quiet run never calls it.

use vstd::prelude::*;

verus! {

/// The name of the variable that switches the timings on.
pub const ENV: &'static str = "QREVIEW_TRACE";

/// The moment a block of work started: an opaque instant of the clock.
#[verifier::external_type_specification]
#[verifier::external_body]
pub struct ExInstant(std::time::Instant);

/// The message of a block of work that started, or nothing for a quiet run,
/// which does not build it.
pub fn since<F: FnOnce() -> String>(started: Option<std::time::Instant>, what: F) -> (out: Option<String>)
    requires
        started is Some ==> call_requires(what, ()),
    ensures
        started is None ==> out is None,
        started is Some ==> (out matches Some(m) && call_ensures(what, (), m)),
{
    match started {
        None => None,
        Some(_) => Some(what()),
    }
}

/// The message of an event, or nothing for a quiet run, which does not
/// build it.
pub fn note<F: FnOnce() -> String>(on: bool, what: F) -> (out: Option<String>)
    requires
        on ==> call_requires(what, ()),
    ensures
        !on ==> out is None,
        on ==> (out matches Some(m) && call_ensures(what, (), m)),
{
    if on {
        Some(what())
    } else {
        None
    }
}

/// Whether a value of the variable asks for the timings: any value but the
/// empty string and `0`.
pub fn asks(value: &str) -> (b: bool)
    ensures
        b == (value@.len() > 0 && value@ != "0"@),
{
    !value.is_empty() && !crate::text::same_str(value, "0")
}

} // verus!
