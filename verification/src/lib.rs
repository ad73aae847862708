//! Parser pipeline for a small indentation-sensitive scripting language:
//! a tokenizer that turns source bytes into spanned tokens, and a
//! recursive-descent grammar that turns tokens into an abstract syntax tree.

pub mod tokenizer;
pub mod scanner;
