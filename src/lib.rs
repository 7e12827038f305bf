//! Wire protocol, session bookkeeping and server-list logic of a small
//! game-server cluster: a connect server that clients dial into and a set
//! of game servers that report their load to it.

pub mod wire;
pub mod seq_facts;
pub mod packet;
pub mod protocol;
pub mod session;
pub mod handler;
pub mod codec;
pub mod config;
pub mod reconnect;
