//! Commands over the benchmark tree itself: listing its applications,
//! pulling a release, and smoke-testing it with its own Makefiles.

pub mod list;
pub mod pull;
pub mod test;
