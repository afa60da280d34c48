//! Counting the lines of source files: each physical line is classified as
//! blank, code or one of three kinds of comment, and the tallies of the files
//! of a directory tree are summed, leaving out what the tree's ignore files
//! name.

pub mod args;
pub mod classify;
pub mod code_stats;
pub mod count_lines;
pub mod ignore;
pub mod params;
pub mod text;
pub mod tree;
pub mod walker;
