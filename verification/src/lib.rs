//! Verified cores of a set of small command-line text and file utilities.
//!
//! Each module holds the rules of one utility as functions from plain values
//! to plain values, with contracts over mathematical models. Reading files,
//! walking directories and printing are left to the caller.

pub mod cal;
pub mod comm;
pub mod cut;
pub mod decimal;
pub mod find;
pub mod fortune;
pub mod grep;
pub mod head;
pub mod lines;
pub mod ls;
pub mod pattern;
pub mod tail;
pub mod text;
pub mod wc;
