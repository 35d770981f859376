//! A discrete-event simulation interpreter in the GPSS style: a bytecode
//! virtual machine whose clock is virtual and whose future events are kept in
//! a stable priority queue.

pub mod error;
pub mod float;
pub mod values;
pub mod scheduler;
pub mod program;
pub mod machine;
pub mod nested;
pub mod random;
pub mod interpreter;
pub mod text;
pub mod lexer;
