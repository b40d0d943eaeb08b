//! Transport and command framing for a wireless co-processor on an SPI bus.
//!
//! [`bsp`] holds the board-facing traits and the chip-select-bracketed bulk
//! operations, [`wire`] puts a platform's output line and serial wire behind
//! those traits, [`scripted`] is a line and a wire without hardware,
//! [`crc7`] is the command checksum, and [`commands`] builds the command
//! frames and decodes their responses.

pub mod bsp;
pub mod commands;
pub mod crc7;
pub mod scripted;
pub mod wire;
