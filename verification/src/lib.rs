//! What a desktop session leader decides: which processes it starts and with what, how it talks to
//! the compositor, and how a session ends. The processes, sockets and buses themselves are left to
//! the caller.

pub mod a11y;
pub mod autostart;
pub mod comp;
pub mod component;
pub mod env;
pub mod generic;
pub mod notifications;
pub mod panel;
pub mod process;
pub mod service;
pub mod session;
pub mod systemd;
pub mod text;
