//! An Intcode virtual machine (`intcode`): a flat memory of signed integers
//! that is both code and data, decoded and executed one instruction at a
//! time, with an input queue and an output sequence; its add-and-multiply
//! forerunner (`arith`); chains of machines (`amplifier`); and the smaller
//! puzzles that share the crate: fuel (`fuel`), wires (`wires`), passwords
//! (`password`), orbits (`orbits`) and image layers (`image`), with the
//! text reading they need (`text`).

pub mod intcode;
pub mod text;
pub mod arith;
pub mod amplifier;
pub mod fuel;
pub mod image;
pub mod password;
pub mod orbits;
pub mod wires;
