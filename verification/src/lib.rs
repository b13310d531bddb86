//! The runtime's decisions, kept apart from its input and output.

pub mod addr;
pub mod boot;
pub mod cli;
pub mod config;
pub mod consent_gate;
pub mod deploy;
pub mod drive;
pub mod drt_root;
pub mod grants;
pub mod gsr;
pub mod json;
pub mod key;
pub mod listen;
pub mod modules;
pub mod msg;
pub mod netcheck;
pub mod paths;
pub mod polled;
pub mod reflect;
pub mod relay;
pub mod repl;
pub mod resolve;
pub mod revision;
pub mod roots;
pub mod run;
pub mod start;
pub mod stdlib;
pub mod stun;
pub mod text;
pub mod tree;
pub mod tunnel;
pub mod turn;
pub mod userspace;
pub mod verbs;
pub mod webrtc;
