use vstd::prelude::*;

pub mod fen;
pub mod text;
