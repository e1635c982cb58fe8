pub mod cli;
pub mod codec;
pub mod control;
pub mod frame;
pub mod mapping;
pub mod server;
pub mod session;
