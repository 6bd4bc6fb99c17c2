//! The verified core of a terminal chat client over TCP: decoding typed commands,
//! the state of the screen and the input line, the layout of the screen, log lines cut
//! to the terminal's width, the tables of connections and chats, and the framing of
//! messages on a connection. Terminal and network I/O stay with the caller.

use vstd::prelude::*;

pub mod text;
pub mod history;
pub mod addr;
pub mod command;
pub mod log_fmt;
pub mod screen;
pub mod printer;
pub mod terminal;
pub mod message;
pub mod frame;
pub mod table;
pub mod conn;
pub mod chat;
