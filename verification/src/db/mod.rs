//! Rewriting of SQL dumps.

pub mod columns;
pub mod rmid;
pub mod scan;
pub mod tuples;

use vstd::prelude::*;

verus! {

/// A rewritten text, and how many of its constructs were changed.
pub struct Rewritten {
    pub text: Seq<char>,
    pub count: nat,
}

} // verus!
