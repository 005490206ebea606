//! Rule-driven line scrubbing: an ordered list of pattern/replacement rules
//! is compiled once and applied, rule after rule, to every line of a text.

pub mod matcher;
pub mod rules;
pub mod lines;
pub mod scrub;
