//! Compliance analysis of system descriptions: query metadata, attack trees,
//! and the translation of descriptions and source code into RDF quads.
pub mod text;
pub mod string_map;
pub mod query;
pub mod json;
pub mod rdf;
pub mod error;
pub mod loader;
pub mod blank_nodes;
pub mod database;
pub mod source_code;
pub mod export;
pub mod workspace;
pub mod report;
pub mod analysis;
pub mod graph;
pub mod codegen;
