//! Terminal verbosity settings carried through the command-line surface.

use vstd::prelude::*;

verus! {

/// The verbosity of the output displayed to the user.
#[derive(Debug, PartialEq, Eq, Structural, Clone, Copy)]
pub enum Verbosity {
    /// No output.
    Quiet,

    /// Normal output, with spinners.
    Normal,

    /// Verbose output. No spinners are displayed, and all intermediate output is printed.
    Verbose,
}

impl Verbosity {
    /// Whether messages at all should be shown: everything but `Quiet`.
    pub fn is_audible(&self) -> (r: bool)
        ensures
            r == (*self != Verbosity::Quiet),
    {
        match self {
            Verbosity::Quiet => false,
            Verbosity::Normal => true,
            Verbosity::Verbose => true,
        }
    }
}

impl Default for Verbosity {
    fn default() -> (r: Verbosity)
        ensures
            r == Verbosity::Normal,
    {
        Verbosity::Normal
    }
}

/// Settings for what the command-line surface reports to the user.
#[derive(Debug, Clone, Copy)]
pub struct Ui {
    verbosity: Verbosity,
}

impl Ui {
    /// The configured verbosity, for contracts.
    pub closed spec fn spec_verbosity(&self) -> Verbosity {
        self.verbosity
    }

    pub fn new(verbosity: Verbosity) -> (r: Ui)
        ensures
            r.spec_verbosity() == verbosity,
    {
        Ui { verbosity }
    }

    pub fn verbosity(&self) -> (r: &Verbosity)
        ensures
            *r == self.spec_verbosity(),
    {
        &self.verbosity
    }
}

impl Default for Ui {
    fn default() -> (r: Ui)
        ensures
            r.spec_verbosity() == Verbosity::Normal,
    {
        Ui { verbosity: Verbosity::Normal }
    }
}

} // verus!
