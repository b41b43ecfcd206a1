//! The lexical front end of a small HTML engine, verified with Verus.
//!
//! [`renderer::html::token::HtmlTokenizer`] turns markup text into a stream of
//! [`renderer::html::token::HtmlToken`]s, one per call of `next`. What it
//! hands out is specified by a state machine on plain mathematical values,
//! [`renderer::html::machine::Machine`], and the laws of the stream are proved
//! of that machine.

pub mod renderer;
