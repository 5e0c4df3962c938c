//! Capability checking for Rust code bases.
//!
//! Every function declares, through the suffix of its name, which effects it
//! may have (`rvs_read_file_BI`: blocking and I/O).  The library infers the
//! effects that a call graph really has, compares them with the declared ones
//! and reports the differences.
pub mod analysis;
pub mod artifacts;
pub mod body_scan;
pub mod call_harvest;
pub mod call_observations;
pub mod call_violation;
pub mod capability;
pub mod capsfile;
pub mod capsmap;
pub mod collections;
pub mod contracts;
pub mod extract;
pub mod flow_map;
pub mod fs_guard;
pub mod function_classification;
pub mod graph_index;
pub mod growth;
pub mod incompleteness;
pub mod infer_commands;
pub mod inference;
pub mod item_rules;
pub mod item_scan;
pub mod lints;
pub mod names;
pub mod order;
pub mod output_layer;
pub mod pathmap;
pub mod propagation;
pub mod reports;
pub mod source_checks;
pub mod source_text;
pub mod resolver;
pub mod result_flow;
pub mod result_call;
pub mod result_mir;
pub mod symbols;
pub mod suffix_checks;
pub mod syntax;
pub mod text;
