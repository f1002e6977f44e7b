//! Syscall invocation boundary of a sandboxed bytecode virtual machine.
//!
//! Guest bytecode calls host-provided functions through a fixed convention:
//! five integer arguments, an optional private context, a reference to the
//! address-translation service for this call only, and one output slot.
//! Every guest address a syscall touches must first pass through a bounds-
//! and permission-checked translation; a failed translation short-circuits
//! the invocation and surfaces as a typed error.

pub mod error;
pub mod memory;
pub mod syscalls;
