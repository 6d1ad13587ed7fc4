pub mod cobs;
pub mod line;
pub mod passthrough;
pub mod slip;
pub mod timeout;
