//! Planning and text generation for the TypeScript SDK that is produced from
//! Sui Move packages: import statements, barrel files, package constants and
//! the layout of the generated directories.

pub mod address;
pub mod barrel;
pub mod js_tokens;
pub mod names;
pub mod packages;
pub mod rpc;
pub mod text;
pub mod ts_imports;
