//! Verified core of a small host-to-board command link: the command
//! vocabulary, the CRC-8 framing of packets on the serial line, the
//! receiving state machine, the interrupt receive ring buffer, the
//! frame-buffer model of the display, and the walker state machine.

pub mod crc;
pub mod frame;
pub mod uart_buffer;
pub mod protocol;
pub mod cli;
pub mod bounded;
pub mod screen;
pub mod command;
