use vstd::prelude::*;

pub mod calls;
pub mod encoding;
pub mod hooks;
pub mod laws;
pub mod market;
pub mod model;
pub mod pallet;
pub mod proofs;
pub mod seqs;
pub mod types;
