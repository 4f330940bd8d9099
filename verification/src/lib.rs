//! The local side of a VPN client: the recording commands with their admin socket,
//! its token and its files, the status of a recording, and the network device of
//! the proxy.
//!
//! What touches the outside world, sockets, files and the terminal, is not done
//! here. The library says what is to be done, as plain values, and is told what
//! came of it.

/// Socket addresses and their text form.
pub mod addr;
/// The admin socket: where it listens and how commands find it.
pub mod admin;
/// The network device between the tunnel and the IP stack.
pub mod device;
/// Where files are kept and how private ones are made.
pub mod files;
/// The status of a recording.
pub mod status;
/// Text and numbers in it.
pub mod text;
/// The token of the admin socket.
pub mod token;
