//! A toolbox of small utilities: bit-stream conversions, an INI configuration
//! differ and patcher, lap-time bookkeeping, include-path lookup, archive
//! detection, version-string parsing and the layout of debug listings.

pub mod bits;
pub mod config;
pub mod patch;
pub mod stopwatch;
pub mod paths;
pub mod archives;
pub mod versions;
pub mod debug;
