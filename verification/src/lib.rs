//! The input-processing core of a small interactive shell: a quoting and
//! escaping tokenizer, a redirect splitter, the builtin commands writing into
//! byte buffers, and the plan that routes those buffers to files or the terminal.
//!
//! Nothing here touches the terminal, the environment or the file system; the
//! caller hands in what it read from the host and carries out what comes back.

pub mod builtin;
pub mod builtin_proofs;
pub mod output;
pub mod redirect;
pub mod redirect_proofs;
pub mod resolve;
pub mod resolve_proofs;
pub mod text;
pub mod tokenizer;
pub mod tokenizer_proofs;

pub use builtin::{command_not_found, complete, invocation, Command, Effect, Host};
pub use output::{append_bytes, write_and_flush_buf, write_and_flush_str, Output};
pub use redirect::{
    failure_message, split_tokens, stream_sinks, Failure, Redirect, Routing, Sink, Split,
};
pub use resolve::{find_in_directory, resolve_executable, split_search_path, Entry};
pub use text::{as_strs, byte_len, char_is_whitespace, join_strs, parse_i32, starts_with};
pub use tokenizer::{push_next_arg, tokenize};
