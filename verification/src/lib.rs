//! Verified core of a code-to-RDF knowledge-graph toolkit.
pub mod ansible;
pub mod ansible_project;
pub mod canonicalize;
pub mod codegen_tool;
pub mod decimal;
pub mod git_history;
pub mod hash;
pub mod host_pattern;
pub mod ini_inventory;
pub mod inventory;
pub mod loader;
pub mod playbook;
pub mod prompt_contract;
pub mod python;
pub mod rdf;
pub mod rdf_input;
pub mod reports;
pub mod retrieval;
pub mod role;
pub mod router;
pub mod rust_source;
pub mod sorted_map;
pub mod sparql_tool;
pub mod text;
pub mod toml_doc;
pub mod types;
pub mod typescript;
pub mod yaml;
pub mod yaml_inventory;
