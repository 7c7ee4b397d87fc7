//! Interactive viewer core for delimited tabular text.
//!
//! The crate infers the field delimiter of a CSV-like byte stream, loads it
//! into a [`csv_data::CSVData`] table, computes per-column display widths, and
//! drives the keyboard navigation state of the interactive table view.  All
//! of that logic is verified; reading files and painting the terminal are left
//! to the surrounding binary.

pub mod cli;
pub mod csv_data;
pub mod processor;
pub mod tui;
