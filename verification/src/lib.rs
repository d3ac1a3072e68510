pub mod hooks;
pub mod logging;
pub mod maps;
pub mod server;
pub mod text;
