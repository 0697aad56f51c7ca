//! Extracts the source-code files of a checked-out repository tree into one
//! flat text document: each recognized file appears once, framed by a path
//! header and separator lines, in traversal order.

pub mod classifier;
pub mod laws;
pub mod paths;
pub mod pipeline;
pub mod record;
pub mod text;
