//! The core of an installation tracker: which paths an intercepted file-system
//! call records and in which table, and which shared objects a tracked
//! executable links, read from the dynamic linker's diagnostic output.

pub mod deps;
pub mod filter;
pub mod record;
pub mod session;
pub mod text;
