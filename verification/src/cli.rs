//! Command-line surface: one required input file path.

use vstd::prelude::*;

verus! {

/// The command-line arguments of the viewer: the path of the input file.
///
/// Argument parsing itself is terminal I/O glue and happens outside the
/// library; the parsed value is handed in as this plain record.
pub struct Args {
    pub input: String,
}

} // verus!
