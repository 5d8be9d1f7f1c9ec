//! The operating systems whose install locations differ.

use vstd::prelude::*;

verus! {

/// The operating system the companion runs on.
#[derive(Clone, Copy, Debug, PartialEq, Eq, Structural)]
pub enum Platform {
    /// macOS.
    MacOs,
    /// Windows.
    Windows,
    /// Linux and other Unix-likes.
    Other,
}

} // verus!
