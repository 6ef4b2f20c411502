//! CyberWeaver's investigation core: the domain model of a forensic
//! investigation graph, the in-memory graph engine and its traversals, and
//! the conversions between the graph and the exchange formats it speaks.
pub mod agent;
pub mod attack_flow;
pub mod canvas;
pub mod cli;
pub mod clock;
pub mod commands;
pub mod domain;
pub mod edits;
pub mod enrichment;
pub mod error;
pub mod graph;
pub mod ids;
pub mod json;
pub mod llm;
pub mod plugins;
pub mod queries;
pub mod report;
pub mod stix;
pub mod stix_import;
pub mod text;
