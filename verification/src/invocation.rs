//! What one run does, once its arguments are read.

use vstd::prelude::*;

use crate::options::{Options, OptionsView};

verus! {

/// What this run does. Reading the arguments always ends in exactly one of these.
#[derive(Debug, Clone, PartialEq, Eq)]
pub enum Invocation {
    /// Show the table.
    Report(Options),
    /// Show the usage.
    Help,
    /// Show the version.
    Version,
}

/// The meaning of an [`Invocation`].
pub enum InvocationView {
    Report(OptionsView),
    Help,
    Version,
}

impl View for Invocation {
    type V = InvocationView;

    open spec fn view(&self) -> InvocationView {
        match self {
            Invocation::Report(options) => InvocationView::Report(options@),
            Invocation::Help => InvocationView::Help,
            Invocation::Version => InvocationView::Version,
        }
    }
}

} // verus!
