//! Interactive file-name search: an incrementally edited pattern, a bounded
//! ordered window of accepted paths, and the command protocol that drives both.

pub mod pattern;
pub mod server;
