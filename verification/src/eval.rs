//! Functions that are handed in: what a deterministic one gives.
use vstd::prelude::*;

verus! {

/// The value a function gives for an argument.
pub open spec fn value<A, R, F: Fn(A) -> R>(f: F, a: A) -> R {
    choose|v: R| call_ensures(f, (a,), v)
}

/// The function takes every argument and always gives one value for it.
pub open spec fn steady<A, R, F: Fn(A) -> R>(f: F) -> bool {
    &&& forall|a: A| #[trigger] call_requires(f, (a,))
    &&& forall|a: A, v: R, w: R|
        #[trigger] call_ensures(f, (a,), v) && #[trigger] call_ensures(f, (a,), w) ==> v == w
}

} // verus!
