//! Quantized matrix products on CUDA tiles: which kernels a product is made of, what each
//! kernel reads, and what it adds up for every output.
//!
//! Floating point is described here, not performed: a kernel hands out, for each output it
//! stores, the sums it accumulates, with every operand read and decoded.
pub mod arithmetic;
pub mod blocks;
pub mod expr;
pub mod launch;
pub mod matrices;
pub mod plan;
pub mod product;
pub mod q4k;
pub mod q6k;
pub mod rows;
pub mod schedule;
pub mod scratch;
pub mod settings;
pub mod storage;
pub mod tile;
pub mod trace;
pub mod values;

