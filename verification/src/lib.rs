//! Verified core of a local Azure DevOps pipeline runner: the expression
//! lexer, dependency ordering, template directives, error reporting and the
//! plain data model that the runner works on.

pub mod text;
pub mod lexer;
pub mod dependency;
pub mod parse_error;
pub mod template;
pub mod models;
pub mod pipeline_models;
pub mod users;
pub mod rpc;
pub mod events;
pub mod execution;
pub mod manifest;
pub mod task_cache;
pub mod runners;
pub mod containers;
pub mod matrix;
pub mod expr_context;
pub mod cycles;
pub mod expr_parser;
pub mod graph;
pub mod validator;
pub mod substitution;
pub mod extends;
pub mod expansion;
pub mod runtime;
pub mod task_runner;
pub mod parameters;
pub mod template_substitution;
pub mod resolution;
pub mod functions;
pub mod model_copy;
