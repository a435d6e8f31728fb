//! Verified core of a converter for Freelancer (2003) save files.
//!
//! `cipher` undoes the GENE cipher that encrypted saves are stored in,
//! `mission` patches a plaintext save so that v1.0 saves keep progressing
//! under v1.1, `backup` names backup copies and reports on them, `text`
//! holds the string operations that the other modules are specified over,
//! and `session` holds the decisions taken by the program's window.

use vstd::prelude::*;

pub mod backup;
pub mod cipher;
pub mod mission;
pub mod session;
pub mod text;

verus! {

/// Errors of the library, named after the I/O error kinds that the
/// program reports for the same situations.
#[derive(Debug, Clone, Copy, PartialEq, Eq, Structural)]
pub enum SaveError {
    /// The save holds no line to patch.
    NotFound,
    /// The save file is empty.
    UnexpectedEof,
    /// The line to patch holds no number that can go up by one.
    InvalidData,
}

} // verus!
