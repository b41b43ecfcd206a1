//! HTML: characters, attributes, tokens.
//!
//! - [`token`]: the tokens and the tokenizer.
//! - [`attribute`]: one attribute of a start tag.
//! - [`machine`]: the state machine that says what the tokenizer does.
//! - [`laws`]: what holds of every stream of tokens.
//! - [`scanning`], [`document`], [`raw_text`]: what the machine makes of
//!   well-formed markup, and of `<` in raw text.
//! - [`ascii`], [`text`]: letters and strings.

pub mod ascii;
pub mod attribute;
pub mod document;
pub mod laws;
pub mod machine;
pub mod raw_text;
pub mod scanning;
pub mod text;
pub mod token;
