//! Where the composed bundle goes. The clipboard itself is outside this
//! library; what is decided here is the rule: standard output when asked
//! for, otherwise the clipboard, and on a clipboard failure a warning plus
//! the full text on standard output — a failed clipboard never loses the
//! bundle.

use vstd::prelude::*;

verus! {

/// How a run delivers the bundle.
#[derive(Clone, Copy, Debug, PartialEq, Eq, Structural)]
pub enum Delivery {
    /// The bundle goes to standard output, as requested.
    Stdout,
    /// The bundle sits on the clipboard.
    Clipboard,
    /// The clipboard failed: a warning goes to the error stream and the full
    /// bundle goes to standard output instead.
    StdoutAfterClipboardError,
}

/// The delivery a run ends with, given whether standard output was forced
/// and whether the clipboard attempt failed (meaningful only when the
/// clipboard was attempted, that is when standard output was not forced).
pub open spec fn spec_delivery(force_stdout: bool, clipboard_error: bool) -> Delivery {
    if force_stdout {
        Delivery::Stdout
    } else if clipboard_error {
        Delivery::StdoutAfterClipboardError
    } else {
        Delivery::Clipboard
    }
}

/// Decide how the run ends; in every case the bundle is delivered somewhere.
pub fn delivery_outcome(force_stdout: bool, clipboard_error: bool) -> (r: Delivery)
    ensures
        r == spec_delivery(force_stdout, clipboard_error),
        r == Delivery::Clipboard || r == Delivery::Stdout || r
            == Delivery::StdoutAfterClipboardError,
{
    if force_stdout {
        Delivery::Stdout
    } else if clipboard_error {
        Delivery::StdoutAfterClipboardError
    } else {
        Delivery::Clipboard
    }
}

} // verus!
