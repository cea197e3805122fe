//! The stub transformation commands of the thin front end.

pub mod run;
