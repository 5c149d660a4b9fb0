//! The guest-facing half of an emulated C library and of a few system
//! frameworks, with the behaviour of every function stated as a contract.
#![allow(non_snake_case, non_camel_case_types, non_upper_case_globals)]
#![allow(unused_imports)]

pub mod environment;
pub mod frameworks;
pub mod fs;
pub mod heap;
pub mod libc;
pub mod mem;
pub mod memory_laws;
pub mod objc;
pub mod path_laws;
pub mod paths;
pub mod text;
