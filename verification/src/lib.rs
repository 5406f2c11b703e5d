//! A lightweight agent loop against Anthropic and OpenAI-compatible APIs: everything it
//! decides, computes and remembers. What touches the network, the file system or the shell
//! is left to the program around it.

use vstd::prelude::*;

pub mod agent_loop;
pub mod cli;
pub mod job;
pub mod json;
pub mod llm;
pub mod parts;
pub mod policy;
pub mod prompt;
pub mod provider;
pub mod registry;
pub mod resume;
pub mod run;
pub mod spawn;
pub mod text;
pub mod thread;
pub mod tools;
pub mod written;

verus! {

/// A shell command to be executed.
#[derive(Debug)]
pub struct ShellExecPayload {
    pub command: String,
}

/// What came of a shell command.
#[derive(Debug)]
pub struct ShellResultPayload {
    pub ok: bool,
    pub output: String,
}

} // verus!
