//! The ordered catalog of option definitions of one command.

use crate::definition::{ProgramOption, ProgramOptionView};
use vstd::prelude::*;
use vstd::std_specs::slice::into_iter_elts;

verus! {

/// A collection of options that can be passed to an LLVM program.
///
/// The order of `options` is the order in which definitions are tried against
/// a token.
#[derive(Debug)]
pub struct CommandOptions {
    pub options: Vec<ProgramOption>,
}

/// The contents of a list of definitions.
pub open spec fn option_views(options: Seq<ProgramOption>) -> Seq<ProgramOptionView> {
    options.map_values(|option: ProgramOption| option@)
}

impl View for CommandOptions {
    type V = Seq<ProgramOptionView>;

    open spec fn view(&self) -> Seq<ProgramOptionView> {
        option_views(self.options@)
    }
}

impl CommandOptions {
    /// Iterate over the option definitions, in catalog order.
    pub fn iter_options(&self) -> (iter: std::slice::Iter<'_, ProgramOption>)
        ensures
            into_iter_elts(iter) == self.options@,
    {
        let iter = self.options.as_slice().iter();
        proof {
            broadcast use vstd::std_specs::slice::axiom_spec_slice_iter;

            assert(into_iter_elts(iter) =~= self.options@);
        }
        iter
    }
}

} // verus!
