//! A verified core of `minimize`, the translator from Rust's MIR to MiniRust.
//!
//! The translation works on plain descriptions of what rustc knows (`rs`,
//! `mir`) and produces MiniRust syntax (`lang`); every step is specified by
//! spec functions that say what each construct becomes.
pub mod num;
pub mod lang;
pub mod rs;
pub mod ty;
pub mod chunks;
pub mod enums;
pub mod copy;
pub mod builder;
pub mod mir;
pub mod program;
pub mod constant;
pub mod function;
pub mod rvalue;
pub mod bb;
pub mod intrinsics;
pub mod intern;
pub mod vtable;
pub mod args;
pub mod tables;
pub mod jumps;
pub mod fnrefs;
