//! Installed llama.cpp capability snapshot.

use vstd::prelude::*;

verus! {

/// An installed llama.cpp build and what it supports.
#[derive(Debug, Clone, PartialEq, Eq)]
pub struct LlamaCppInstallation {
    pub executable: String,
    pub version: Option<String>,
    pub build: Option<String>,
    pub supported_options: Vec<String>,
    pub available_backends: Vec<String>,
}

} // verus!
