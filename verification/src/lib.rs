pub mod decode;
pub mod lexer;
pub mod json;
pub mod offset_map;
pub mod reconcile;
pub mod render;
pub mod server;
