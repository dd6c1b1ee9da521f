//! rat_logger: a structured logging pipeline whose decision logic is verified.
//!
//! The verified library holds the record model and its binary codec, the
//! per-sink worker state machine, the file sink's size, rotation, naming and
//! retention rules, the template formatter, the initialisation handshake and
//! the UDP packet helpers. Threads, channels, files and sockets live around it.

pub mod codec;
pub mod config;
pub mod dispatch;
pub mod file_sink;
pub mod format;
pub mod retention;
pub mod sinks;
pub mod text;
pub mod udp;
pub mod worker;

pub use config::{
    AppId, ColorConfig, FileConfig, FormatConfig, Level, LevelFilter, LevelStyle, Metadata,
    NetRecord, NetworkConfig, Record,
};
pub use dispatch::HandlerType;
pub use sinks::{fmt, FmtInitializer, LogProcessor, Logger, SetLoggerError, TermConfig};
pub use udp::{PacketMetadata, UdpBatchProcessor, UdpConfig, UdpPacketHelper};
pub use worker::{BatchConfig, LogCommand};
