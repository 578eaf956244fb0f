//! The verified core of a desktop shell: locating, preparing and launching a
//! companion server process, and turning directory reads into a sorted tree.

pub mod error;
pub mod files;
pub mod python_backend;
