//! Read-only host inspection for a resource-aware llama.cpp inference advisor.

pub mod cli;
pub mod hardware;
pub mod llama_cpp;
pub mod recommendation;
pub mod text;
pub mod workload;
