//! The model runtime: reading a model file's header, and the bookkeeping
//! around its tensors.

pub mod attention;
pub mod blocks;
pub mod cache;
pub mod ffn;
pub mod file_laws;
pub mod generate;
pub mod gguf;
pub mod kernels;
pub mod layout;
pub mod linear_attn;
pub mod load;
pub mod mask;
pub mod metadata;
pub mod model_laws;
pub mod params;
pub mod quant;
