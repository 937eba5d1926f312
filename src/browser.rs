//! Failures of the remote viewport that the scanner drives.
use vstd::prelude::*;

verus! {

/// A failure of the remote viewport.
#[derive(Debug, Clone, PartialEq, Eq)]
pub enum BrowserError {
    LaunchFailed(String),
    ElementNotFound(String),
    ScreenshotFailed(String),
}

} // verus!
