pub mod node;
pub mod node_tree;
pub mod store;
pub mod node_codec;
