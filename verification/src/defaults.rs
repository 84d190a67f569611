//! The names that a distribution of the program settles: what is asked for where the user
//! asks for nothing else.

use vstd::prelude::*;

verus! {

/// The names that a distribution of the program settles.
pub struct Defaults {
    /// The model that Anthropic is asked for.
    pub model: String,
    /// The model that OpenRouter is asked for.
    pub routed_model: String,
    /// The file that holds the instructions of a project or the user.
    pub instruction_file: String,
    /// The directory that may hold that file.
    pub instruction_dir: String,
}

/// The names that a distribution settles, as a mathematical object.
pub struct DefaultsView {
    pub model: Seq<char>,
    pub routed_model: Seq<char>,
    pub instruction_file: Seq<char>,
    pub instruction_dir: Seq<char>,
}

impl View for Defaults {
    type V = DefaultsView;

    open spec fn view(&self) -> DefaultsView {
        DefaultsView {
            model: self.model@,
            routed_model: self.routed_model@,
            instruction_file: self.instruction_file@,
            instruction_dir: self.instruction_dir@,
        }
    }
}

} // verus!
