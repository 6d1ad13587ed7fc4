pub mod log;
pub mod connection;
pub mod scheduling;
pub mod script;
pub mod control;
