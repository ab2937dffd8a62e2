//! The verified core of potty, a terminal with splits, tabs, remote sessions and an attention
//! feed: the wire protocol, the session daemon, the pane tree, the screen snapshot, the prompt-mark
//! scanner, the feed, and the decisions of the window and of the helper programs.
//!
//! Everything here works on plain values. Drawing, sockets, pseudo-terminals and configuration
//! files belong to the program around this library.

pub mod bits;
pub mod blink;
pub mod call_laws;
pub mod chrome;
pub mod client;
pub mod client_laws;
pub mod client_traffic;
pub mod codex;
pub mod color;
pub mod color_laws;
pub mod config;
pub mod config_laws;
pub mod damage;
pub mod damage_laws;
pub mod dialogs;
pub mod feed;
pub mod feed_laws;
pub mod grid;
pub mod grid_laws;
pub mod helper;
pub mod helper_laws;
pub mod hooks;
pub mod hooks_laws;
pub mod json;
pub mod keys;
pub mod keys_laws;
pub mod layout;
pub mod layout_laws;
pub mod mouse;
pub mod mouse_laws;
pub mod notify;
pub mod osc133;
pub mod osc133_laws;
pub mod paths;
pub mod paths_laws;
pub mod preset_laws;
pub mod profiles;
pub mod profiles_laws;
pub mod proto;
pub mod proto_laws;
pub mod remote;
pub mod remote_laws;
pub mod seqs;
pub mod session;
pub mod session_laws;
pub mod snapshot;
pub mod snapshot_laws;
pub mod term_env;
pub mod terminal;
pub mod terminal_laws;
pub mod terminal_reading;
pub mod text;
pub mod text_laws;
pub mod toml_doc;
pub mod window;
pub mod window_laws;
pub mod workspace;
pub mod workspace_laws;
