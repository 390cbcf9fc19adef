//! A parser for a small hardware description language, together with the
//! bit-level bus model that a simulator of such chips builds on.
//!
//! A source text holds one chip: a name, the input pins, the output pins, and
//! the parts that the chip is wired from. `parser::parse_hdl2` reads such a
//! text into an `ast::Chip`, whose names are slices of the source and whose
//! pieces know at which byte offsets they were read, or says where and why
//! reading failed. `Chip::to_source` writes a chip back.
//!
//! What each rule of the language reads is defined in `grammar`, on plain
//! sequences of characters; the functions of `parser` are proved to do
//! exactly that. `laws`, `places`, `progress` and `roundtrip` hold what is
//! proved of the grammar itself.

pub mod ast;
pub mod bus;
pub mod error;
pub mod grammar;
pub mod input;
pub mod laws;
pub mod located;
pub mod nand;
pub mod parser;
pub mod part;
pub mod places;
pub mod printer;
pub mod progress;
pub mod render;
pub mod roundtrip;
pub mod shape;
pub mod text;
