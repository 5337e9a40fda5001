//! The SECD-style stack machine: value and instruction syntax, textual
//! representation, the code generator that targets it, and the machine
//! itself.

pub mod langdef;
pub mod machine;
pub mod repr;
pub mod secdgen;
