//! A small command-pipeline language (`cmd --opt=val arg | cmd2 ...`): a token
//! model, a recursive-descent parser written once against a node-building
//! interface, two tree representations behind that interface (an index-addressed
//! arena and an owned tree of boxes), a pre-order traversal of the string leaves
//! and a random generator of valid token sequences.

pub mod tree;
pub mod grammar;
pub mod interface;
pub mod arena;
pub mod boxes;
pub mod laws;
pub mod fuzz;
