//! RustSynth library core: the EisenScript front end, rule graph resolution and
//! validation, the integer side of evaluation (settings, recursion budgets,
//! the branches a rule queues and the order they are visited in, loop
//! counters, seeds), OBJ export text, the topology of the viewport
//! meshes, and the editor's text work (define rewriting, camera annotations,
//! highlighting, autocomplete).

pub mod rng;
pub mod text;
pub mod editor;
pub mod diagnostics;
pub mod ast;
pub mod primitive;
pub mod rule_graph;
pub mod resolution;
pub mod validation;
pub mod preprocessor;
pub mod lexer;
pub mod parser;
pub mod color;
pub mod obj;
pub mod error;
pub mod scene;
pub mod template;
pub mod viewport;
pub mod commands;
pub mod eval;
pub mod expansion;
pub mod schedule;
pub mod counters;
pub mod obj_format;
pub mod annotation;
pub mod mesh;
pub mod highlight;
pub mod pipeline;
pub mod session;
pub mod payload;
