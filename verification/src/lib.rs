//! Core of an internet-wide Minecraft server scanner.
//!
//! The crate covers the Server List Ping protocol (modern handshake/status
//! exchange and the pre-1.6 legacy probe), the parsed response model with
//! server-type classification and MOTD reconstruction, and the pure decision
//! logic of the scan orchestrator. Sockets, subprocesses and storage live in
//! the surrounding application; everything here is verified.

pub mod codec;
pub mod utils;
pub mod text;
pub mod response;
pub mod protocol;
pub mod targeting;
pub mod scanner;
