//! How much of a file's metadata is shown.
use vstd::prelude::*;

verus! {

/// A way to show the metadata of a file to people.
#[derive(Debug, Clone, Copy, PartialEq, Eq, Structural)]
pub enum DisplayStyle {
    Inline,
    Oneliner,
    Concise,
    Detailed,
}

/// The way to show metadata when verbosity was asked for `verbose` times: more each time, up to
/// all that is known.
pub fn display_style(verbose: u8) -> (r: DisplayStyle)
    ensures
        r == DisplayStyle::Inline <==> verbose == 0,
        r == DisplayStyle::Oneliner <==> verbose == 1,
        r == DisplayStyle::Concise <==> verbose == 2,
        r == DisplayStyle::Detailed <==> verbose >= 3,
{
    match verbose {
        0 => DisplayStyle::Inline,
        1 => DisplayStyle::Oneliner,
        2 => DisplayStyle::Concise,
        _ => DisplayStyle::Detailed,
    }
}

} // verus!
