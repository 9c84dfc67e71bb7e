//! A verified model of the boundary between a host program and a reference-counted,
//! lock-protected foreign object runtime: the runtime's object heap with its raw,
//! sentinel-returning entry points, the conversion of those sentinels into
//! structured errors, the generic object protocol, the reentrant global lock and the
//! registry of thread and interpreter states.
#![allow(non_camel_case_types, non_snake_case)]

pub mod runtime;
pub mod raw;
pub mod err;
pub mod object;
pub mod pystate;
pub mod module;
