//! Which vector store a read goes to: the store shared with the indexer when there is
//! one, with a fallback to a store opened for the one read.
//!
//! The caller opens the stores and performs the reads; these functions decide, from
//! what the last attempt gave, where the next attempt goes.

use vstd::prelude::*;

verus! {

/// A step of a read of the vector store.
pub enum VectorReadStep {
    /// Read the shared store
    Shared,
    /// Open the database read-only and read it
    Readonly,
    /// Open the database and read it
    Standalone,
    /// Return the result of the last attempt
    Finish,
}

/// The first attempt of a vector-store read: the shared store when there is one.
pub open spec fn first_vector_read_spec(has_shared: bool) -> VectorReadStep {
    if has_shared {
        VectorReadStep::Shared
    } else {
        VectorReadStep::Standalone
    }
}

/// The step after an attempt: a successful shared read finishes; a failed one falls
/// back to a read-only open when the server is read-only, else to a plain open; a
/// fallback's result, good or bad, is returned.
pub open spec fn next_vector_read_spec(last: VectorReadStep, succeeded: bool, readonly: bool) -> VectorReadStep {
    match last {
        VectorReadStep::Shared => if succeeded {
            VectorReadStep::Finish
        } else if readonly {
            VectorReadStep::Readonly
        } else {
            VectorReadStep::Standalone
        },
        _ => VectorReadStep::Finish,
    }
}

/// The first attempt of a vector-store read.
pub fn first_vector_read(has_shared: bool) -> (r: VectorReadStep)
    ensures
        r == first_vector_read_spec(has_shared),
{
    if has_shared {
        VectorReadStep::Shared
    } else {
        VectorReadStep::Standalone
    }
}

/// The step after an attempt of a vector-store read that `succeeded` or not.
pub fn next_vector_read(last: &VectorReadStep, succeeded: bool, readonly: bool) -> (r: VectorReadStep)
    ensures
        r == next_vector_read_spec(*last, succeeded, readonly),
{
    match last {
        VectorReadStep::Shared => {
            if succeeded {
                VectorReadStep::Finish
            } else if readonly {
                VectorReadStep::Readonly
            } else {
                VectorReadStep::Standalone
            }
        },
        _ => VectorReadStep::Finish,
    }
}

/// A vector-store read makes at most two attempts: after the first, either it finishes
/// or a fallback is tried, and after a fallback it finishes; a read-only server never
/// falls back to a plain open of a shared database.
pub proof fn law_vector_read_terminates(has_shared: bool, ok1: bool, ok2: bool, readonly: bool)
    ensures
        ({
            let s1 = first_vector_read_spec(has_shared);
            let s2 = next_vector_read_spec(s1, ok1, readonly);
            &&& s1 !is Finish
            &&& s2 is Finish || s2 is Readonly || s2 is Standalone
            &&& s2 !is Finish ==> next_vector_read_spec(s2, ok2, readonly) is Finish
            &&& (has_shared && readonly) ==> s2 !is Standalone
            &&& !has_shared ==> s1 is Standalone && s2 is Finish
        }),
{
}

} // verus!
