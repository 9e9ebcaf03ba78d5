pub mod text;
pub mod keys;
pub mod node_id;
pub mod id_provider;
pub mod token;
pub mod meta_ast;
pub mod parser;
pub mod types;
pub mod tree_formatter;
pub mod type_error;
pub mod type_var_verify;
pub mod type_env;
pub mod enum_registry;
pub mod staged_ast;
pub mod staged_forest;
pub mod meta_stager;
pub mod module_loader;
pub mod meta_tree;
pub mod staged_tree;
pub mod eval_error;
pub mod error;
pub mod source_text;
pub mod meta_processor;
pub mod source_discovery;
pub mod value;
pub mod type_hints;
