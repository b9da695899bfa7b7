//! Translator from a stack-based virtual-machine language to assembly for a
//! 16-bit accumulator machine.
//!
//! Each command emits a fixed or parameterised block of instructions. The
//! blocks are described as sequences of abstract instructions (`code::Ins`)
//! whose text is fixed by `code::text`; `machine` gives those instructions a
//! meaning, over which the laws of the emitted code are proved.
pub mod text;
pub mod code;
pub mod labels;
pub mod emit;
pub mod source;
pub mod parse;
pub mod machine;

pub use emit::{
    add, and, call, eq, function, goto, gt, if_goto, label, lt, neg, not, or, pop, push,
    return_, static_name, sub, Cmp, ParseError, Segment,
};
pub use labels::LabelAllocator;
pub use parse::{parse_file, parse_line, Diagnostic, Output, Translator};
pub use source::sanitize;
