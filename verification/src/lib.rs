//! Discovers the routing structure of a file-based web router: candidate file
//! paths are classified by router convention, reduced to route segment
//! sequences, and aggregated into a labeled tree that renders as an indented
//! diagram. File discovery, convention selection and printing are left to the
//! caller.

pub mod classify;
pub mod crawl;
pub mod render_lines;
pub mod segment;
pub mod tree;
