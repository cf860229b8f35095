//! The builtin functions of the language.
pub mod array;
pub mod string;
pub mod dictionary;
