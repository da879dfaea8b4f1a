//! Verified core of a podman compose manager: Makefile and prompt parsing,
//! discovery bookkeeping and the decisions of the secrets workflow.

pub mod assoc;
pub mod cmdline;
pub mod compose;
pub mod discovery;
pub mod makefile;
pub mod order;
pub mod podman;
pub mod prompt;
pub mod prompt_check;
pub mod quadlet;
pub mod rebuild;
pub mod run;
pub mod secrets;
pub mod sorting;
pub mod text;
pub mod utf8_len;
