use vstd::prelude::*;

pub mod seqs;
pub mod actions;
pub mod text;
pub mod window;
pub mod logring;
pub mod clock;
pub mod counters;
pub mod config;
pub mod sampler;
pub mod voice;
pub mod order;
pub mod panel;
pub mod bans;
pub mod laws;

verus! {

} // verus!
