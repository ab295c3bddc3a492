//! Translation of stack-machine VM code into assembly for a 16-bit accumulator machine.
//!
//! `parser` reads source text into commands, `translator` turns commands into assembly
//! lines, and `machine` gives the target machine a meaning so that what the emitted
//! code does can be stated and proved.
pub mod ast;
pub mod machine;
pub mod parser;
pub mod text;
pub mod translator;
