//! An interactive command shell: the tokenizer, the command plans, the job
//! table, the builtin commands and the completion rules, with their contracts.
pub mod text;
pub mod strmap;
pub mod tokenizer;
pub mod jobs;
pub mod jobs_laws;
pub mod commands;
pub mod commands_laws;
pub mod builtins;
pub mod tokenizer_laws;
pub mod builtins_laws;
pub mod words;
pub mod completion;
pub mod completion_laws;
pub mod history;
