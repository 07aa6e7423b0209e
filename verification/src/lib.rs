//! Client side of a networked tic-tac-toe relay: the command language that
//! players type, the binary packets sent to the game server, the rendering of
//! the server's board updates and the routing of those updates back to the
//! player connections.

pub mod command;
pub mod wire;
pub mod parse;
pub mod render;
pub mod session;
pub mod router;
