//! A miniature graph query engine: a Cypher-like query text is tokenized and
//! parsed into an AST, lowered into a flat bytecode program, and interpreted
//! against an in-memory directed, labeled graph.

pub mod cypher;
pub mod graph;
pub mod lexer;
pub mod vm;
