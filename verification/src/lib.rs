//! Verified core of a terminal for MSX computers reached over TCP: the
//! BASIC program buffer, the parsing of console input and of received
//! listings, and hexadecimal input and dumps.
pub mod text;
pub mod hex;
pub mod order;
pub mod program;
pub mod lines;
pub mod lower;
pub mod console;
pub mod receive;
