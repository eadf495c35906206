//! Front end for a small imperative language: a scanner, a recursive-descent
//! parser and a builder that emits SSA instructions into a control-flow graph
//! of basic blocks linked by a dominator tree.
pub mod tokenizer_data;
pub mod input;
pub mod strings;
pub mod tokenizer;
pub mod maps;
pub mod frame;
pub mod itype;
pub mod inst;
pub mod block;
pub mod state;
pub mod grammar;
pub mod parser;
pub mod render;
pub mod laws;
