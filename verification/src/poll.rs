//! The readiness value of the non-blocking interface.
//!
//! The pollable operations express waiting as a value instead of blocking
//! the thread: `Pending` means "not ready yet, poll again later", and the
//! call leaves all observable state exactly as it was, so a re-poll resumes
//! where the previous poll left off.

use vstd::prelude::*;

verus! {

/// The outcome of one poll: the operation's value, or not ready yet.
pub enum Poll<T> {
    /// The operation completed with this value.
    Ready(T),
    /// The operation could not make progress yet; poll again later.
    Pending,
}

} // verus!
