//! Parcelona: a minimalistic parser combinator library, verified.
//!
//! Every parser is a pure function from an input suffix to either a
//! `(remaining, value)` pair or a typed failure carrying the unconsumed
//! input and a stack of context messages. Each combinator carries a
//! specification-level model (`spec_parse`) that pins its behaviour down,
//! and the executable code is proved to match that model exactly.

pub mod parser_combinators;
pub mod u8;
pub mod u8ext;
