pub mod content;
pub mod node_kind;
