//! The decisions of a tabbed SSH client: what its windows, its transfers and the local control
//! channel for AI agents do, without the drawing and the sockets.
pub mod text;
pub mod shell;
pub mod paths;
pub mod quoting;
pub mod saved;
pub mod proto;
pub mod protocol;
pub mod pending;
pub mod transfers;
pub mod terminal;
pub mod forwards;
pub mod session;
pub mod runs;
pub mod file_ops;
pub mod ownership;
pub mod keys;
pub mod tickets;
pub mod clipboard;
pub mod cross_copy;
pub mod transfer_list;
pub mod app;
pub mod tabs;
pub mod handshake;
pub mod connection;
pub mod agent_calls;
pub mod agent_runs;
pub mod agent_files;
pub mod agent_open;
pub mod cross_copy_laws;
pub mod agent_frame;
pub mod events;
pub mod relays;
pub mod paste;
pub mod direct;
pub mod editor;
pub mod view_state;
pub mod tab_strip;
pub mod image_view;
pub mod popups;
pub mod notices;
pub mod startup;
pub mod frame;
pub mod demo;
pub mod shell_laws;
pub mod reconnect_laws;
pub mod run_laws;
pub mod agent_laws;
pub mod text_laws;
pub mod request_laws;
pub mod marker_laws;
pub mod transfer_laws;
pub mod saved_laws;
pub mod paste_laws;
pub mod copy_laws;
pub mod event_laws;
pub mod window_laws;
pub mod channel_laws;
pub mod list_laws;
pub mod guard_laws;
pub mod tab_laws;
pub mod path_laws;
pub mod frame_laws;
pub mod key_laws;
pub mod step_laws;
pub mod progress_laws;
