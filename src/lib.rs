//! Runtime core of a server-driven UI protocol: symbol codec, event and
//! action keys, per-event session state and the request dispatcher; beside
//! it, the bookkeeping of the build tool that gathers component declarations
//! and the assets a renderer serves.

pub mod codec;
pub mod path;
pub mod session;
pub mod dispatch;
pub mod table;
pub mod collect;
pub mod assets;
