//! Shifts the timestamps of subtitle files: a codec between timestamp text and
//! milliseconds, an offset resolver, and a line rewriter for two grammars.
pub mod text;
pub mod codec;
pub mod grammar;
pub mod offset;
pub mod rewrite;
pub mod laws;
