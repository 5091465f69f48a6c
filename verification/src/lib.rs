//! A verified Intcode-style virtual machine: a linear memory buffer of
//! signed integers executed as instructions with parameterized addressing
//! modes, together with the small helpers built around it (program
//! patching, a noun/verb search, and a password digit check).

pub mod loader;
pub mod password;
pub mod vm;
