//! Text utilities for language-understanding pipelines: positions in
//! UTF-8 text, diacritic removal, case shapes and stable hashing.

pub mod hash;
pub mod language;
pub mod normalization;
pub mod offsets;
pub mod shape;
pub mod string;
pub mod unicode;
