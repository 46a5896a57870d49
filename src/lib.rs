//! Version-comparison conditions: a parser for conditions such as
//! `x >= 1.27.2` or `1.0.0 < x < 2.0.0` over a token sequence, and their
//! evaluation against a current (major, minor, patch) version.
pub mod condition;
pub mod number;
pub mod version;
