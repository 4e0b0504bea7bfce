//! Re-pagination of long, vertically scrolling comic pages.
//!
//! Source images are stacked onto one canvas, which is cut back into pages of
//! a chosen height at rows where a cut does not run through artwork.

pub mod args;
pub mod canvas;
pub mod files;
pub mod models;
pub mod natural;
pub mod plan;
pub mod profiles;
pub mod seam;
pub mod stitcher;
pub mod text;
pub mod width;
