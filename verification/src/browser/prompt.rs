//! Results of interactive prompts.
use vstd::prelude::*;

verus! {

/// User's selection result: a choice, Back navigation, or interruption.
pub enum PromptResult<T> {
    /// User selected a valid choice.
    Choice(T),
    /// User selected "← Back" or pressed Escape.
    Back,
    /// Prompt was interrupted (Ctrl+C).
    Interrupted,
}

} // verus!
