//! A step-at-a-time runtime and debugger core for a two-dimensional,
//! self-modifying stack language whose source is a rectangular grid of
//! single-byte instructions.
//!
//! The crate is organised around four subsystems: the execution space
//! (a dense/sparse 2D byte store with wrap-around movement), the
//! interpreter (an opcode dispatcher over a byte stack), the path
//! analyzer (a breadth-first reachability pass over the grid), and the
//! debugger controller with its virtual terminal and command parser.

pub mod analyze;
pub mod befunge93;
pub mod commands;
pub mod console;
pub mod cursor;
pub mod debugger;
pub mod funge;
pub mod interpreter;
pub mod io;
pub mod layout;
pub mod program;
pub mod record;
pub mod space;
pub mod tabs;
pub mod terminal;
pub mod window;
