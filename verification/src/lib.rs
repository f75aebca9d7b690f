//! Verified core of a small tensor-graph runtime: the `.oinf` model file
//! format, cache tables and persistent caches, tensor slicing, dtype rules,
//! Vulkan descriptor and dispatch planning, and validation rules.

pub mod dtype;
pub mod text;
pub mod oinf;
pub mod tensor;
pub mod quant;
pub mod model_loader;
pub mod graph;
pub mod cache;
pub mod cache_table;
pub mod cache_utils;
pub mod cache_store;
pub mod cache_access;
pub mod vk_common;
pub mod vk_desc;
pub mod tensor_bytes;
pub mod spirv;
pub mod random;
pub mod vk_dispatch;
pub mod float_bits;
pub mod runtime;
pub mod frames;
pub mod op_runner;
pub mod control_flow;
pub mod validation;
pub mod graph_check;
pub mod state;
pub mod engine;
pub mod executor;
pub mod scheduler;
pub mod op_attrs;
