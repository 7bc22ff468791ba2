pub mod bytes;
pub mod chunk;
pub mod constants;
pub mod customizer;
pub mod output_model;
pub mod reader;
pub mod syntax;
pub mod tree;
pub mod walker;
pub mod writer;
