//! Where generated text goes. The library names the place and hands the text
//! over; opening and writing the file is the caller's part.

use crate::definitions::{clone_option_string, option_text};
use vstd::prelude::*;

verus! {

/// A file that text is to be written to.
#[derive(Debug, PartialEq)]
pub struct OutputTarget {
    /// A directory to make, with its parents, before the file is opened.
    pub directory: Option<String>,
    /// The path of the file.
    pub path: String,
    /// Whether the text is added at the end of what the file holds. Where
    /// it is not, the file is made anew.
    pub append: bool,
}

pub struct OutputTargetView {
    pub directory: Option<Seq<char>>,
    pub path: Seq<char>,
    pub append: bool,
}

impl View for OutputTarget {
    type V = OutputTargetView;

    open spec fn view(&self) -> OutputTargetView {
        OutputTargetView {
            directory: option_text(self.directory),
            path: self.path@,
            append: self.append,
        }
    }
}

impl Clone for OutputTarget {
    fn clone(&self) -> (r: Self)
        ensures
            r@ == self@,
    {
        OutputTarget {
            directory: clone_option_string(&self.directory),
            path: self.path.clone(),
            append: self.append,
        }
    }
}

/// A piece of generated text with the file that it belongs to.
#[derive(Debug, PartialEq)]
pub struct Emission {
    pub target: OutputTarget,
    pub text: String,
}

pub struct EmissionView {
    pub target: OutputTargetView,
    pub text: Seq<char>,
}

impl View for Emission {
    type V = EmissionView;

    open spec fn view(&self) -> EmissionView {
        EmissionView { target: self.target@, text: self.text@ }
    }
}

impl Clone for Emission {
    fn clone(&self) -> (r: Self)
        ensures
            r@ == self@,
    {
        Emission { target: self.target.clone(), text: self.text.clone() }
    }
}

/// The views of a list of emissions, in order.
pub open spec fn emission_views(emissions: Seq<Emission>) -> Seq<EmissionView> {
    emissions.map_values(|e: Emission| e@)
}

} // verus!
