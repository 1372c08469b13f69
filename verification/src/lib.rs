//! SongWalker: a small music language compiled to a timed event list and
//! rendered, offline, to audio samples.
//!
//! Musical time is kept exact: beats are unsigned rationals (`rat::Rat`),
//! pitch frequencies are Q16 fixed point, and samples are Q15 fixed point,
//! so the whole pipeline is integer arithmetic with proved contracts.

pub mod ast;
pub mod compiler;
pub mod engine;
pub mod mixer;
pub mod parser;
pub mod pitch;
pub mod rat;
pub mod voice;
pub mod strutil;

use vstd::prelude::*;

verus! {

} // verus!
