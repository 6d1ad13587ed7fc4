pub mod buffer;
pub mod cbrt;
pub mod codec;
pub mod engine;
pub mod error;
pub mod formatter;
pub mod lua;
pub mod message;
pub mod registry;
pub mod text;
pub mod transform;
pub mod util;
