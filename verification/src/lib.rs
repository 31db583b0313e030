//! A small tensor-computation engine built around an append-only computation
//! graph. Values are lazily evaluated with memoization, and reverse-mode
//! automatic differentiation produces gradients that are themselves ordinary
//! graph nodes, so gradients can be differentiated again without any special
//! mechanism.
//!
//! Element values are exact rationals over 64-bit integers, so every
//! arithmetic result is either the exact mathematical value or an explicit
//! overflow error; nothing is silently rounded.

pub mod array;
pub mod buffer;
pub mod error;
pub mod grad;
pub mod graph;
pub mod hardware;
pub mod laws;
pub mod node;
pub mod operator;
pub mod rational;
pub mod shape;
