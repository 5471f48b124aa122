//! Reserved tool-result meta keys.
//!
//! Tools communicate structured facts about a call by setting these keys in
//! the result's meta object, where they become addressable fields rather than
//! prose the model has to parse out of a message.

use vstd::prelude::*;

verus! {

/// Steps that reverse the call's effects: the undo module's own key, so the
/// two cannot drift apart.
pub const UNDO_ACTIONS: &'static str = crate::undo::META_KEY;

/// Content that was moved out of the message because it was too large.
pub const OVERFLOW_CONTENT: &'static str = "goose.overflowContent";

/// Why a call failed, when the tool can say more than "it failed".
pub const FAILURE_REASON: &'static str = "goose.failureReason";

} // verus!
