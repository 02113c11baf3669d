#![verifier::loop_isolation(false)]
//! A YAML and JSON source formatter: line scanning, scalar decoding and
//! encoding, structural equivalence checks and the line-level rewrites of
//! the YAML emitter.
pub mod text;
pub mod source;
pub mod yaml_scan;
pub mod yaml_model;
pub mod diagnostic;
pub mod yaml_scalar;
pub mod yaml_quote;
pub mod json_to_yaml;
pub mod jsonc;
pub mod yaml_semantic;
pub mod yaml_flow_quote;
pub mod yaml_lines;
pub mod workspace;
pub mod yaml_line_format;
pub mod plugins;
pub mod json5;
pub mod yaml_equivalence;
pub mod yaml_block_text;
pub mod yaml_blocks;
pub mod yaml_validate;
pub mod diagnostic_order;
