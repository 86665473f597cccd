//! Gruff: deterministic maintainability policies for Python source.
use vstd::prelude::*;

pub mod check;
pub mod comments;
pub mod config;
pub mod discovery;
pub mod noqa;
pub mod paths;
pub mod render;
pub mod report;
pub mod rules;
pub mod selection;
pub mod syntax;
pub mod text;

pub use crate::report::run;
pub use crate::report::Arguments;

verus! {

/// Why a run failed, as the message shown to the user.
#[derive(Debug)]
pub struct RunError(pub String);

impl View for RunError {
    type V = Seq<char>;

    open spec fn view(&self) -> Seq<char> {
        self.0@
    }
}

impl RunError {
    /// The message, as text.
    pub fn message(&self) -> (m: String)
        ensures
            m@ == self@,
    {
        self.0.clone()
    }
}

} // verus!
